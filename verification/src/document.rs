//! The document: the full text of one editing session, with a monotonically
//! increasing revision counter advanced on every accepted change.

use vstd::prelude::*;

verus! {

/// Mathematical model of a document.
#[verifier::ext_equal]
pub ghost struct DocumentView {
    pub text: Seq<char>,
    pub revision: int,
}

/// The current full text of one open document. The single writer is the
/// editing surface: every accepted change replaces the text as a whole and
/// advances the revision counter, so each analysis can be tied to exactly one
/// revision.
pub struct Document {
    text: String,
    revision: u64,
}

impl View for Document {
    type V = DocumentView;

    closed spec fn view(&self) -> DocumentView {
        DocumentView { text: self.text@, revision: self.revision as int }
    }
}

impl Document {
    /// An empty document at revision zero.
    pub fn new() -> (d: Document)
        ensures
            d@ == (DocumentView { text: Seq::<char>::empty(), revision: 0int }),
    {
        let d = Document { text: String::new(), revision: 0 };
        proof {
            assert(d@ =~= DocumentView { text: Seq::<char>::empty(), revision: 0int });
        }
        d
    }

    /// Replaces the whole text with `text` and advances the revision counter.
    pub fn set_text(&mut self, text: String)
        requires
            old(self)@.revision < u64::MAX,
        ensures
            final(self)@.text == text@,
            final(self)@.revision == old(self)@.revision + 1,
    {
        self.text = text;
        self.revision = self.revision + 1;
    }

    /// The current text.
    pub fn text(&self) -> (t: &str)
        ensures
            t@ == self@.text,
    {
        self.text.as_str()
    }

    /// The revision the text is at.
    pub fn revision(&self) -> (r: u64)
        ensures
            r as int == self@.revision,
    {
        self.revision
    }
}

} // verus!
