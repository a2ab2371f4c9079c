//! The Insert/Edit Link/Image command kind.

use vstd::prelude::*;

use crate::text::same_text;

verus! {

/// The two insert commands that also edit an existing link or image when the
/// selection is exactly that markup; drives their Insert/Edit relabel.
#[derive(Clone, Copy, PartialEq, Eq, Debug, Structural)]
pub enum FmtInsertKind {
    Link,
    Image,
}

/// The action target string of a kind.
pub open spec fn target_text(k: FmtInsertKind) -> Seq<char> {
    match k {
        FmtInsertKind::Link => "link"@,
        FmtInsertKind::Image => "image"@,
    }
}

/// The surface label of a kind, in insert or edit mode.
pub open spec fn label_text(k: FmtInsertKind, editing: bool) -> Seq<char> {
    match (k, editing) {
        (FmtInsertKind::Link, false) => "Insert Link…"@,
        (FmtInsertKind::Link, true) => "Edit Link…"@,
        (FmtInsertKind::Image, false) => "Insert Image…"@,
        (FmtInsertKind::Image, true) => "Edit Image…"@,
    }
}

impl FmtInsertKind {
    /// Parse an action target into a kind; `None` for anything else.
    pub fn from_target(target: &str) -> (r: Option<FmtInsertKind>)
        ensures
            match r {
                Some(k) => target_text(k) == target@,
                None => forall|k: FmtInsertKind| target_text(k) != target@,
            },
    {
        if same_text(target, "link") {
            Some(FmtInsertKind::Link)
        } else if same_text(target, "image") {
            Some(FmtInsertKind::Image)
        } else {
            proof {
                assert forall|k: FmtInsertKind| target_text(k) != target@ by {
                    match k {
                        FmtInsertKind::Link => {},
                        FmtInsertKind::Image => {},
                    }
                }
            }
            None
        }
    }

    /// The action target string for this kind.
    pub fn target(self) -> (s: &'static str)
        ensures
            s@ == target_text(self),
    {
        match self {
            FmtInsertKind::Link => "link",
            FmtInsertKind::Image => "image",
        }
    }

    /// The surface label and tooltip for this command in insert or edit mode.
    pub fn label(self, editing: bool) -> (s: &'static str)
        ensures
            s@ == label_text(self, editing),
    {
        match (self, editing) {
            (FmtInsertKind::Link, false) => "Insert Link…",
            (FmtInsertKind::Link, true) => "Edit Link…",
            (FmtInsertKind::Image, false) => "Insert Image…",
            (FmtInsertKind::Image, true) => "Edit Image…",
        }
    }

    /// The two target strings differ, so a kind's own target parses back to it.
    pub proof fn target_round_trips(a: FmtInsertKind, b: FmtInsertKind)
        ensures
            target_text(a) == target_text(b) <==> a == b,
    {
        reveal_strlit("link");
        reveal_strlit("image");
        assert("link"@.len() == 4);
        assert("image"@.len() == 5);
    }
}

} // verus!
