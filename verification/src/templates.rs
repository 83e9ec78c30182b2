//! Shared templates that template rules can extend.

use crate::name_map::NameMap;
use vstd::prelude::*;

verus! {

/// Templates that any template rule may refer to.
#[derive(Debug, PartialEq, Eq)]
pub struct TemplatesCollection {
    /// Templates by name, with their text.
    pub raw: Option<NameMap<String>>,
    /// Paths of template files.
    pub files: Option<Vec<String>>,
}

/// The contents of a [`TemplatesCollection`].
pub struct TemplatesView {
    pub raw: Option<Seq<(Seq<char>, Seq<char>)>>,
    pub files: Option<Seq<Seq<char>>>,
}

impl TemplatesView {
    /// No templates at all.
    pub open spec fn empty() -> TemplatesView {
        TemplatesView { raw: None, files: None }
    }
}

impl DeepView for TemplatesCollection {
    type V = TemplatesView;

    open spec fn deep_view(&self) -> TemplatesView {
        TemplatesView { raw: self.raw.deep_view(), files: self.files.deep_view() }
    }
}

impl Default for TemplatesCollection {
    fn default() -> (collection: Self)
        ensures
            collection.deep_view() == TemplatesView::empty(),
    {
        TemplatesCollection { raw: None, files: None }
    }
}

impl Clone for TemplatesCollection {
    fn clone(&self) -> (copy: Self)
        ensures
            copy.deep_view() == self.deep_view(),
    {
        let raw: Option<NameMap<String>> = match &self.raw {
            Some(raw) => {
                let copied = raw.clone();
                assert(copied.deep_view() =~= raw.deep_view());
                Some(copied)
            },
            None => None,
        };
        let files: Option<Vec<String>> = match &self.files {
            Some(files) => {
                let copied = files.clone();
                assert(copied.deep_view() =~= files.deep_view());
                Some(copied)
            },
            None => None,
        };
        TemplatesCollection { raw, files }
    }
}

/// The contents of a collection are all of it: every template with its name and its
/// text, in order, and every path of a file.
pub proof fn law_templates_view(c: TemplatesCollection)
    ensures
        c.deep_view().raw is Some <==> c.raw is Some,
        c.deep_view().files is Some <==> c.files is Some,
        c.raw is Some ==> {
            &&& c.deep_view().raw->0.len() == c.raw->0@.len()
            &&& forall|i: int|
                0 <= i < c.raw->0@.len() ==> {
                    &&& (#[trigger] c.deep_view().raw->0[i]).0 == c.raw->0@[i].0
                    &&& c.deep_view().raw->0[i].1 == c.raw->0@[i].1@
                }
        },
        c.files is Some ==> {
            &&& c.deep_view().files->0.len() == c.files->0@.len()
            &&& forall|i: int|
                0 <= i < c.files->0@.len() ==> #[trigger] c.deep_view().files->0[i]
                    == c.files->0@[i]@
        },
        TemplatesView::empty().raw is None,
        TemplatesView::empty().files is None,
{
}

} // verus!
