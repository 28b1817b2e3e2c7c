//! A template: content bound to a parent meta object's identifier, able
//! to render final text against a conforming instance object.

use vstd::prelude::*;
use vstd::string::StrSliceExecFns;
use vstd::string::StringExecFns;

use crate::errors::TemplateError;
use crate::errors::UniqueIdError;
use crate::instance::InstanceObject;
use crate::instance::InstanceValue;
use crate::instance::spec_render_value;
use crate::template_content::TemplateContent;
use crate::text::push_char;
use crate::text::spec_clean;
use crate::text::spec_join_space;
use crate::text::spec_refs;
use crate::text::spec_words;
use crate::text::clean_word_str;
use crate::text::find_refs;
use crate::text::split_words;
use crate::unique_id::Identifier;
use crate::unique_id::UniqueId;
use crate::unique_id::id_shaped;

verus! {

/// A whitespace-delimited token after substitution: when its cleaned form
/// starts with a placeholder whose reference names an entity of the
/// instance, the whole token becomes that entity's rendered value;
/// otherwise the token passes through unchanged.
pub open spec fn spec_word_subst(w: Seq<char>, m: Map<Seq<char>, InstanceValue>) -> Seq<char> {
    let refs = spec_refs(spec_clean(w));
    if refs.len() > 0 && m.contains_key(refs[0]) {
        spec_render_value(m[refs[0]])
    } else {
        w
    }
}

/// The rendering of a content string against an instance's entity map:
/// each whitespace-delimited token is substituted, and the tokens are
/// rejoined with single spaces.
pub open spec fn spec_transform(content: Seq<char>, m: Map<Seq<char>, InstanceValue>) -> Seq<
    char,
> {
    spec_join_space(spec_words(content).map_values(|w: Seq<char>| spec_word_subst(w, m)))
}

/// A template bound to a parent meta object.
#[derive(Debug)]
pub struct Template {
    id: UniqueId,
    content: TemplateContent,
    parent_object: UniqueId,
}

/// The mathematical view of a `Template`: its identifier, content and
/// parent identifier as plain sequences.
pub struct TemplateV {
    pub id: Seq<char>,
    pub content: Seq<char>,
    pub parent: Seq<char>,
}

impl DeepView for Template {
    type V = TemplateV;

    open spec fn deep_view(&self) -> TemplateV {
        TemplateV { id: self.id_view(), content: self.content_view(), parent: self.parent_view() }
    }
}

impl Clone for Template {
    fn clone(&self) -> (r: Self)
        ensures
            r.id_view() == self.id_view(),
            r.content_view() == self.content_view(),
            r.parent_view() == self.parent_view(),
    {
        Template {
            id: self.id.clone(),
            content: self.content.clone(),
            parent_object: self.parent_object.clone(),
        }
    }
}

impl Template {
    /// The template's identifier string.
    pub closed spec fn id_view(&self) -> Seq<char> {
        self.id@
    }

    /// The template's raw content.
    pub closed spec fn content_view(&self) -> Seq<char> {
        self.content@
    }

    /// The identifier string of the parent meta object.
    pub closed spec fn parent_view(&self) -> Seq<char> {
        self.parent_object@
    }

    /// Creates a new template bound to the given parent object, with a
    /// fresh `template`-prefixed identifier.
    pub fn new(content: TemplateContent, parent_object: &UniqueId) -> (r: Result<
        Self,
        UniqueIdError,
    >)
        ensures
            match r {
                Ok(t) => {
                    &&& t.content_view() == content@
                    &&& t.parent_view() == parent_object@
                    &&& id_shaped(t.id_view(), "template"@, 8)
                },
                Err(_) => false,
            },
    {
        proof {
            reveal_strlit("template");
        }
        match UniqueId::new("template", None) {
            Ok(unique_id) => Ok(
                Template { id: unique_id, content, parent_object: parent_object.clone() },
            ),
            Err(err) => Err(err),
        }
    }

    /// Renders the content against the instance: every whitespace token
    /// whose cleaned form starts with a placeholder naming one of the
    /// instance's entities is replaced by that entity's rendered value,
    /// and the tokens are rejoined with single spaces.
    pub fn transform_content(content: &str, object: &InstanceObject) -> (r: String)
        requires
            object.wf(),
        ensures
            r@ == spec_transform(content@, object.entities@),
    {
        let ghost m = object.entities@;
        let ghost mapped = spec_words(content@).map_values(|w: Seq<char>| spec_word_subst(w, m));
        let words = split_words(content);
        let mut out = String::new();
        let mut i: usize = 0;
        while i < words.len()
            invariant
                i <= words@.len(),
                object.wf(),
                m == object.entities@,
                words.deep_view() == spec_words(content@),
                mapped == spec_words(content@).map_values(|w: Seq<char>| spec_word_subst(w, m)),
                out@ == spec_join_space(mapped.take(i as int)),
            decreases words@.len() - i,
        {
            proof {
                assert(words.deep_view()[i as int] == words@[i as int]@);
                assert(mapped[i as int] == spec_word_subst(words@[i as int]@, m));
                assert(mapped.take(i + 1).drop_last() =~= mapped.take(i as int));
                assert(mapped.take(i + 1).last() == mapped[i as int]);
            }
            let cleaned = clean_word_str(words[i].as_str());
            let refs = find_refs(cleaned);
            let piece: String = if refs.len() > 0 {
                proof {
                    assert(refs.deep_view()[0] == spec_refs(spec_clean(words@[i as int]@))[0]);
                }
                match object.entities.get(refs[0].as_str()) {
                    Some(e) => e.get_attribute().display_string(),
                    None => words[i].clone(),
                }
            } else {
                words[i].clone()
            };
            if i > 0 {
                push_char(&mut out, ' ');
            }
            out.append(piece.as_str());
            proof {
                if i == 0 {
                    assert(out@ =~= spec_join_space(mapped.take(1)));
                } else {
                    assert(out@ =~= spec_join_space(mapped.take(i + 1)));
                }
            }
            i = i + 1;
        }
        proof {
            assert(mapped.take(mapped.len() as int) =~= mapped);
        }
        out
    }

    /// Renders against an instance object.  Fails with
    /// `MissingMetaObjectId` when the instance has no meta link, and with
    /// `UnauthrorisedActionFromMetaObject` when the link names another
    /// meta object than this template's parent.
    pub fn build_from_instance(&self, object: &InstanceObject) -> (r: Result<
        String,
        TemplateError,
    >)
        requires
            object.wf(),
        ensures
            match object.meta_id {
                Option::None => {
                    &&& r matches Err(e)
                    &&& e matches TemplateError::MissingMetaObjectId(n)
                    &&& n@ == object.name@
                },
                Option::Some(m) => if m@ == self.parent_view() {
                    r matches Ok(s) && s@ == spec_transform(self.content_view(), object.entities@)
                } else {
                    {
                        &&& r matches Err(e)
                        &&& e matches TemplateError::UnauthrorisedActionFromMetaObject {
                            meta,
                            instance,
                        }
                        &&& meta@ == self.parent_view()
                        &&& instance@ == object.name@
                    }
                },
            },
    {
        match &object.meta_id {
            Some(meta_id) => {
                if self.parent_object == *meta_id {
                    Ok(Self::transform_content(self.content.get_content(), object))
                } else {
                    Err(
                        TemplateError::UnauthrorisedActionFromMetaObject {
                            meta: self.parent_object.as_str().to_owned(),
                            instance: object.get_name().to_owned(),
                        },
                    )
                }
            },
            None => Err(TemplateError::MissingMetaObjectId(object.get_name().to_owned())),
        }
    }

    /// The identifier of the parent meta object.
    pub fn get_parent_object(&self) -> (r: &UniqueId)
        ensures
            r@ == self.parent_view(),
    {
        &self.parent_object
    }

    /// The template's identifier.
    pub fn template_id(&self) -> (r: &UniqueId)
        ensures
            r@ == self.id_view(),
    {
        &self.id
    }
}

impl Identifier for Template {
    fn get_id(&self) -> &UniqueId {
        &self.id
    }
}

} // verus!
