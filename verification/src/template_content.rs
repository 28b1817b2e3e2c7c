//! The raw content of a template: placeholder extraction and validation
//! of the placeholder set against a meta object's attribute set.

use vstd::prelude::*;
use vstd::string::StrSliceExecFns;

use crate::entity::AttributeKind;
use crate::entity::lemma_map_of_contains;
use crate::errors::TemplateError;
use crate::object::Object;
use crate::text::clean_word_str;
use crate::text::contains_str;
use crate::text::find_refs;
use crate::text::spec_clean;
use crate::text::spec_refs;

verus! {

/// The names among `names`, in order, that the reference set does not
/// contain: the entities that lack a placeholder.
pub open spec fn spec_missing(names: Seq<Seq<char>>, refs: Set<Seq<char>>) -> Seq<Seq<char>>
    decreases names.len(),
{
    if names.len() == 0 {
        Seq::empty()
    } else {
        let prev = spec_missing(names.drop_last(), refs);
        if refs.contains(names.last()) {
            prev
        } else {
            prev.push(names.last())
        }
    }
}

/// Encapsulates the raw content of a template.
#[derive(Debug)]
pub struct TemplateContent(String);

impl View for TemplateContent {
    type V = Seq<char>;

    closed spec fn view(&self) -> Seq<char> {
        self.0@
    }
}

impl Clone for TemplateContent {
    fn clone(&self) -> (r: Self)
        ensures
            r@ == self@,
    {
        TemplateContent(self.0.clone())
    }
}

impl TemplateContent {
    /// Wraps a raw content string.
    pub fn new(content: &str) -> (r: Self)
        ensures
            r@ == content@,
    {
        TemplateContent(content.to_owned())
    }

    /// The content as a string slice.
    pub fn get_content(&self) -> (r: &str)
        ensures
            r@ == self@,
    {
        self.0.as_str()
    }

    /// Cleans a word: strips leading and trailing characters unless they
    /// are alphanumeric or one of `@`, `[`, `]`.
    pub fn clean_word(word: &str) -> (r: &str)
        ensures
            r@ == spec_clean(word@),
    {
        clean_word_str(word)
    }

    /// Validates that the set of placeholder references in the content is
    /// exactly the set of entity names of the object.  On failure the
    /// error lists the object's entities without a placeholder, in
    /// declaration order.
    pub fn is_matching_entity<A: AttributeKind>(&self, object: &Object<A>) -> (r: Result<
        (),
        TemplateError,
    >)
        requires
            object.wf(),
        ensures
            match r {
                Ok(_) => spec_refs(self@).to_set() == object.entities@.dom(),
                Err(e) => {
                    &&& spec_refs(self@).to_set() != object.entities@.dom()
                    &&& e matches TemplateError::MissingEntitiesFromMetaObject(v)
                    &&& v.deep_view() == spec_missing(
                        object.entities.names(),
                        spec_refs(self@).to_set(),
                    )
                },
            },
    {
        let refs = find_refs(self.0.as_str());
        let ghost refset = spec_refs(self@).to_set();
        let ghost names = object.entities.names();

        // entities of the object without a placeholder in the content
        let mut missing: Vec<String> = Vec::new();
        let n = object.entities.len();
        let mut i: usize = 0;
        while i < n
            invariant
                i <= n,
                n == object.entities.items@.len(),
                object.wf(),
                refs.deep_view() == spec_refs(self@),
                names == object.entities.names(),
                refset == spec_refs(self@).to_set(),
                missing.deep_view() =~= spec_missing(names.take(i as int), refset),
                forall|j: int|
                    0 <= j < missing.deep_view().len() ==> names.contains(
                        #[trigger] missing.deep_view()[j],
                    ) && !refset.contains(missing.deep_view()[j]),
                forall|j: int|
                    0 <= j < i ==> refset.contains(#[trigger] names[j]) || missing.deep_view().contains(
                        names[j],
                    ),
            decreases n - i,
        {
            proof {
                assert(names.take(i + 1).drop_last() =~= names.take(i as int));
                assert(names.take(i + 1).last() == names[i as int]);
                assert(names[i as int] == object.entities.items@[i as int].name@);
            }
            let e = object.entities.item_at(i);
            if !contains_str(&refs, e.get_name()) {
                let ghost mdv = missing.deep_view();
                missing.push(e.get_name().to_owned());
                proof {
                    assert(missing.deep_view() =~= mdv.push(e.name@));
                    assert(missing.deep_view()[missing.deep_view().len() - 1] == names[i as int]);
                    assert(missing.deep_view().contains(names[i as int]));
                    assert forall|j: int|
                        0 <= j < i implies refset.contains(#[trigger] names[j])
                        || missing.deep_view().contains(names[j]) by {
                        if !refset.contains(names[j]) {
                            let t = choose|t: int| 0 <= t < mdv.len() && mdv[t] == names[j];
                            assert(missing.deep_view()[t] == names[j]);
                        }
                    }
                }
            } else {
                proof {
                    assert(refs.deep_view().contains(e.name@));
                    assert(refset.contains(names[i as int]));
                }
            }
            i = i + 1;
        }
        proof {
            assert(names.take(n as int) =~= names);
        }

        // placeholders of the content without an entity in the object
        let mut all_found: bool = true;
        let mut j: usize = 0;
        while j < refs.len()
            invariant
                j <= refs@.len(),
                object.wf(),
                refs.deep_view() == spec_refs(self@),
                refset == spec_refs(self@).to_set(),
                all_found ==> forall|k: int|
                    0 <= k < j ==> object.entities@.dom().contains(
                        #[trigger] refs.deep_view()[k],
                    ),
                !all_found ==> refset != object.entities@.dom(),
            decreases refs@.len() - j,
        {
            if !object.entities.contains_key(refs[j].as_str()) {
                proof {
                    assert(refs.deep_view().contains(refs.deep_view()[j as int]));
                    assert(spec_refs(self@).contains(refs.deep_view()[j as int]));
                    assert(refset.contains(refs.deep_view()[j as int]));
                    assert(!object.entities@.dom().contains(refs.deep_view()[j as int]));
                }
                all_found = false;
            }
            j = j + 1;
        }

        if missing.len() == 0 && all_found {
            proof {
                // every entity name is among the references
                assert(forall|k: int| 0 <= k < names.len() ==> refset.contains(#[trigger] names[k]));
                // every map key is some entity name
                assert forall|k: Seq<char>| object.entities@.dom().contains(k) implies refset.contains(
                    k,
                ) by {
                    lemma_map_of_contains(object.entities.items@, k);
                    let idx = choose|idx: int|
                        0 <= idx < object.entities.items@.len()
                            && #[trigger] object.entities.items@[idx].name@ == k;
                    assert(names[idx] == k);
                };
                assert forall|k: Seq<char>| refset.contains(k) implies object.entities@.dom().contains(
                    k,
                ) by {
                    assert(spec_refs(self@).contains(k));
                    let idx = choose|idx: int|
                        0 <= idx < spec_refs(self@).len() && spec_refs(self@)[idx] == k;
                    assert(object.entities@.dom().contains(refs.deep_view()[idx]));
                };
                assert(refset =~= object.entities@.dom());
            }
            Ok(())
        } else {
            proof {
                if missing.deep_view().len() > 0 {
                    // some entity name lacks a placeholder
                    let w = missing.deep_view()[0];
                    assert(missing.deep_view().contains(w));
                    let idx = choose|idx: int| 0 <= idx < names.len() && names[idx] == w;
                    assert(object.entities@.dom().contains(w)) by {
                        lemma_map_of_contains(object.entities.items@, w);
                        assert(object.entities.items@[idx].name@ == w);
                    }
                    assert(!refset.contains(w));
                    assert(refset != object.entities@.dom());
                }
            }
            Err(TemplateError::MissingEntitiesFromMetaObject(missing))
        }
    }
}

} // verus!
