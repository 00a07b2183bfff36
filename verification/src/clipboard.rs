//! The in-app clipboard, kept in step with the system clipboard.

use vstd::prelude::*;

verus! {

/// In-app content can be captured in both regular and full-line selection
/// modes. This type describes the structure of said content, based on the
/// context in which it was captured. When OS-level clipboard contents are
/// used, they are always represented as inline, as we cannot infer block
/// style without the copy context.
#[derive(Debug, PartialEq, Eq)]
pub enum ClipboardContent {
    Inline(String),
    Block(String),
    Empty,
}

/// The value of clipboard content.
pub enum ContentView {
    Inline(Seq<char>),
    Block(Seq<char>),
    Empty,
}

impl View for ClipboardContent {
    type V = ContentView;

    open spec fn view(&self) -> ContentView {
        match self {
            ClipboardContent::Inline(s) => ContentView::Inline(s@),
            ClipboardContent::Block(s) => ContentView::Block(s@),
            ClipboardContent::Empty => ContentView::Empty,
        }
    }
}

/// The text of clipboard content, if there is any.
pub open spec fn content_text(c: ContentView) -> Option<Seq<char>> {
    match c {
        ContentView::Inline(s) => Some(s),
        ContentView::Block(s) => Some(s),
        ContentView::Empty => None,
    }
}

impl ClipboardContent {
    /// The text, whether inline or block; `None` for no content.
    pub fn text(&self) -> (r: Option<&str>)
        ensures
            r matches Some(t) ==> content_text(self@) == Some(t@),
            r is None ==> content_text(self@) is None,
    {
        match self {
            ClipboardContent::Inline(content) => Some(content.as_str()),
            ClipboardContent::Block(content) => Some(content.as_str()),
            ClipboardContent::Empty => None,
        }
    }
}

/// Whether the system clipboard holds something other than the in-app text (the
/// inline or block form of the in-app content does not count).
pub open spec fn differs(internal: ContentView, system: Seq<char>) -> bool {
    content_text(internal) != Some(system)
}

/// The content after reading the system clipboard: non-empty system text that
/// differs from the in-app text replaces it, as inline content.
pub open spec fn adopted(internal: ContentView, system: Option<Seq<char>>) -> ContentView {
    match system {
        Some(s) => if s.len() > 0 && differs(internal, s) {
            ContentView::Inline(s)
        } else {
            internal
        },
        None => internal,
    }
}

/// Qualifies in-app copy/paste content with structural information, and
/// synchronizes said content with the OS-level clipboard (preferring it
/// in scenarios where it differs from the in-app equivalent). The system
/// clipboard itself is reached by the caller, which hands its text in.
pub struct Clipboard {
    content: ClipboardContent,
}

impl Clipboard {
    /// The in-app content.
    pub closed spec fn content_view(&self) -> ContentView {
        self.content@
    }

    pub fn new() -> (c: Clipboard)
        ensures
            c.content_view() == ContentView::Empty,
    {
        Clipboard { content: ClipboardContent::Empty }
    }

    /// Returns the in-app clipboard content. However, if in-app content differs
    /// from the system clipboard's text (`None` when there is no system clipboard
    /// or it could not be read), the system text is saved to the in-app clipboard
    /// as inline data and returned instead. Empty system text counts as none.
    pub fn get_content(&mut self, system_content: Option<String>) -> (r: &ClipboardContent)
        ensures
            final(self).content_view() == adopted(
                old(self).content_view(),
                match system_content {
                    Some(s) => Some(s@),
                    None => None,
                },
            ),
            r@ == final(self).content_view(),
    {
        match system_content {
            Some(s) => {
                if !s.as_str().is_empty() && Self::system_content_differs(&self.content, s.as_str()) {
                    self.content = ClipboardContent::Inline(s);
                }
            },
            None => {},
        }
        &self.content
    }

    /// Updates the in-app clipboard with the specified content; its text, if any,
    /// is what the system clipboard is to receive.
    pub fn set_content(&mut self, content: ClipboardContent) -> (r: Option<&str>)
        ensures
            final(self).content_view() == content@,
            r matches Some(t) ==> content_text(content@) == Some(t@),
            r is None ==> content_text(content@) is None,
    {
        self.content = content;
        self.content.text()
    }

    /// Whether the system clipboard's text differs from the in-app content's text.
    pub fn system_content_differs(internal_content: &ClipboardContent, system_content: &str) -> (b: bool)
        ensures
            b == differs(internal_content@, system_content@),
    {
        match internal_content.text() {
            Some(t) => !str_equal(t, system_content),
            None => true,
        }
    }
}

/// Whether two strings hold the same characters.
fn str_equal(a: &str, b: &str) -> (r: bool)
    ensures
        r == (a@ == b@),
{
    let x = crate::text::chars_of(a);
    let y = crate::text::chars_of(b);
    if x.len() != y.len() {
        return false;
    }
    let mut i: usize = 0;
    while i < x.len()
        invariant
            0 <= i <= x@.len(),
            x@.len() == y@.len(),
            x@ == a@,
            y@ == b@,
            forall|k: int| 0 <= k < i ==> x@[k] == y@[k],
        decreases x@.len() - i,
    {
        if x[i] != y[i] {
            return false;
        }
        i = i + 1;
    }
    assert(x@ =~= y@);
    true
}

/// Reading back the in-app text from the system clipboard changes nothing: the
/// in-app content keeps its kind (inline or block).
pub proof fn law_own_text_is_not_adopted(internal: ContentView)
    requires
        content_text(internal) is Some,
    ensures
        adopted(internal, content_text(internal)) == internal,
{
}

/// Text that differs from the in-app text, and is not empty, replaces it as inline
/// content.
pub proof fn law_differing_system_text_is_adopted(internal: ContentView, system: Seq<char>)
    requires
        system.len() > 0,
        content_text(internal) != Some(system),
    ensures
        adopted(internal, Some(system)) == ContentView::Inline(system),
{
}

} // verus!
