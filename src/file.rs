use crate::replacer::RegexReplacer;
use vstd::prelude::*;

verus! {

/// A file as a name and a textual content.
pub struct File {
    name: String,
    content: String,
}

impl File {
    pub closed spec fn name_view(&self) -> Seq<char> {
        self.name@
    }

    pub closed spec fn content_view(&self) -> Seq<char> {
        self.content@
    }

    pub fn new(name: String, content: String) -> (r: Self)
        ensures
            r.name_view() == name@,
            r.content_view() == content@,
    {
        File { name, content }
    }

    pub fn name(&self) -> (r: String)
        ensures
            r@ == self.name_view(),
    {
        self.name.clone()
    }

    pub fn content(&self) -> (r: String)
        ensures
            r@ == self.content_view(),
    {
        self.content.clone()
    }
}

/// The file with its name and its content each rewritten by the replacer.
pub fn process_file(file: File, replacer: &RegexReplacer) -> (r: File)
    ensures
        r.name_view() == replacer.spec_replace(file.name_view()),
        r.content_view() == replacer.spec_replace(file.content_view()),
{
    File::new(replacer.replace(file.name.as_str()), replacer.replace(file.content.as_str()))
}

} // verus!
