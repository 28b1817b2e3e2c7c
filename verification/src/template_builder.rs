//! Builds a template against a meta object: the content's placeholders
//! must exactly match the meta object's attribute names.

use vstd::prelude::*;

use crate::errors::TemplateError;
use crate::meta::MetaObject;
use crate::template::Template;
use crate::template_content::TemplateContent;
use crate::template_content::spec_missing;
use crate::text::spec_refs;
use crate::unique_id::id_shaped;

verus! {

/// Builder for creating and validating templates.
pub struct TemplateBuilder<'a> {
    content: String,
    meta_object: &'a MetaObject,
}

impl<'a> TemplateBuilder<'a> {
    /// The raw content handed in.
    pub closed spec fn content_view(&self) -> Seq<char> {
        self.content@
    }

    /// The meta object the template is built against.
    pub closed spec fn meta(&self) -> MetaObject {
        *self.meta_object
    }

    /// The meta object's entity names are pairwise distinct.
    pub open spec fn wf(&self) -> bool {
        self.meta().wf()
    }

    /// Instantiates a builder over a content string and a meta object.
    pub fn instanciate(content: &str, meta_object: &'a MetaObject) -> (r: Self)
        ensures
            r.content_view() == content@,
            r.meta() == *meta_object,
    {
        TemplateBuilder { content: content.to_owned(), meta_object }
    }

    /// Validates the content against the meta object and builds the
    /// template.  Succeeds exactly when the content's placeholder set
    /// equals the meta object's attribute-name set; fails otherwise with
    /// the attributes that lack a placeholder.
    pub fn build(self) -> (r: Result<Template, TemplateError>)
        requires
            self.wf(),
        ensures
            spec_refs(self.content_view()).to_set() == self.meta().entities@.dom() ==> {
                &&& r matches Ok(t)
                &&& t.content_view() == self.content_view()
                &&& t.parent_view() == self.meta().id@
                &&& id_shaped(t.id_view(), "template"@, 8)
            },
            spec_refs(self.content_view()).to_set() != self.meta().entities@.dom() ==> {
                &&& r matches Err(e)
                &&& e matches TemplateError::MissingEntitiesFromMetaObject(v)
                &&& v.deep_view() == spec_missing(
                    self.meta().entities.names(),
                    spec_refs(self.content_view()).to_set(),
                )
            },
    {
        let template_content = TemplateContent::new(self.content.as_str());
        match template_content.is_matching_entity(self.meta_object) {
            Ok(_) => {
                match Template::new(template_content, self.meta_object.get_object_id()) {
                    Ok(t) => Ok(t),
                    Err(_) => Err(
                        TemplateError::PropagatedError(String::new()),
                    ),
                }
            },
            Err(e) => Err(e),
        }
    }
}

} // verus!
