//! What the toolbar's show/hide toggles decide: the whole bar (`T`) and its six
//! sections (`S_i`, in the canonical order file, edit, format, view, split,
//! zoom). A section's own toggle changes only that section; its menu item is
//! enabled exactly while the bar is shown; showing or hiding the bar never
//! touches a section's state; and hiding the last visible section hides the
//! whole bar instead, keeping that section's tick so showing the bar again
//! restores it.

use vstd::prelude::*;

verus! {

/// The number of toolbar sections.
pub const SECTION_COUNT: usize = 6;

/// The model of the toolbar's visibility state.
pub struct ChromeModel {
    pub toolbar: bool,
    pub sections: Seq<bool>,
}

impl ChromeModel {
    /// Some section other than `section` is shown.
    pub open spec fn another_shown(self, section: int) -> bool {
        exists|j: int| 0 <= j < SECTION_COUNT && j != section && #[trigger] self.sections[j]
    }

    /// The state after a section's toggle asks for `requested`. While the bar is
    /// hidden the toggle is disabled and nothing changes; hiding the last
    /// visible section hides the bar and leaves the section's tick; otherwise
    /// the section takes the requested state.
    pub open spec fn requested(self, section: int, requested: bool) -> ChromeModel {
        if !self.toolbar {
            self
        } else if !requested && !self.another_shown(section) {
            ChromeModel { toolbar: false, ..self }
        } else {
            ChromeModel { sections: self.sections.update(section, requested), ..self }
        }
    }

    /// The state after the bar's own toggle: only the bar changes.
    pub open spec fn with_toolbar(self, on: bool) -> ChromeModel {
        ChromeModel { toolbar: on, ..self }
    }
}

/// Whether hiding or showing `section` is declined in favour of hiding the
/// whole bar: a hide, with no other section shown.
pub fn section_hide_vetoed(requested: bool, section: usize, shown: &[bool; 6]) -> (r: bool)
    requires
        section < SECTION_COUNT,
    ensures
        r == (!requested && forall|j: int|
            0 <= j < SECTION_COUNT && j != section ==> !#[trigger] shown@[j]),
{
    if requested {
        return false;
    }
    let mut j: usize = 0;
    while j < SECTION_COUNT
        invariant
            j <= SECTION_COUNT,
            forall|k: int| 0 <= k < j && k != section ==> !#[trigger] shown@[k],
        decreases SECTION_COUNT - j,
    {
        if j != section && shown[j] {
            assert(shown@[j as int]);
            return false;
        }
        j = j + 1;
    }
    true
}

/// The toolbar's visibility state: the bar and its six sections.
pub struct ToolbarChrome {
    toolbar: bool,
    sections: [bool; 6],
}

impl View for ToolbarChrome {
    type V = ChromeModel;

    closed spec fn view(&self) -> ChromeModel {
        ChromeModel { toolbar: self.toolbar, sections: self.sections@ }
    }
}

impl ToolbarChrome {
    /// The state a window is restored with.
    pub fn new(toolbar: bool, sections: [bool; 6]) -> (c: ToolbarChrome)
        ensures
            c@ == (ChromeModel { toolbar, sections: sections@ }),
    {
        ToolbarChrome { toolbar, sections }
    }

    /// Whether the bar is shown.
    pub fn toolbar_shown(&self) -> (r: bool)
        ensures
            r == self@.toolbar,
    {
        self.toolbar
    }

    /// Whether `section`'s tick is on.
    pub fn section_shown(&self, section: usize) -> (r: bool)
        requires
            section < SECTION_COUNT,
        ensures
            r == self@.sections[section as int],
    {
        proof {
            self.lemma_len();
        }
        self.sections[section]
    }

    /// Whether `section`'s menu item can be toggled: exactly while the bar is
    /// shown.
    pub fn section_enabled(&self, section: usize) -> (r: bool)
        requires
            section < SECTION_COUNT,
        ensures
            r == self@.toolbar,
    {
        self.toolbar
    }

    proof fn lemma_len(&self)
        ensures
            self@.sections.len() == SECTION_COUNT,
    {
    }

    /// The bar's own toggle: only the bar changes, never a section's tick.
    pub fn set_toolbar(&mut self, on: bool)
        ensures
            final(self)@ == old(self)@.with_toolbar(on),
    {
        self.toolbar = on;
    }

    /// A section's toggle asks for `requested`.
    pub fn request_section(&mut self, section: usize, requested: bool)
        requires
            section < SECTION_COUNT,
        ensures
            final(self)@ == old(self)@.requested(section as int, requested),
            final(self)@.sections.len() == SECTION_COUNT,
    {
        proof {
            self.lemma_len();
        }
        if !self.toolbar {
            return;
        }
        if section_hide_vetoed(requested, section, &self.sections) {
            self.toolbar = false;
            return;
        }
        proof {
            if !requested {
                let j = choose|j: int| 0 <= j < SECTION_COUNT && j != section && self.sections@[j];
                assert(self@.sections[j]);
            }
        }
        self.sections[section] = requested;
        proof {
            assert(self@.sections =~= old(self)@.sections.update(section as int, requested));
        }
    }
}

/// Hiding the last visible section hides the whole bar and keeps that
/// section's tick, and showing the bar again restores exactly the state before.
pub proof fn law_hiding_the_last_section_round_trips(m: ChromeModel, section: int)
    requires
        m.toolbar,
        0 <= section < SECTION_COUNT,
        m.sections[section],
        !m.another_shown(section),
    ensures
        !m.requested(section, false).toolbar,
        m.requested(section, false).sections == m.sections,
        m.requested(section, false).with_toolbar(true) == m,
{
}

/// A section's toggle changes no other section, and a shown bar never ends up
/// as an empty strip: if some section was shown under a shown bar, some
/// section is still shown whenever the bar still is.
pub proof fn law_a_section_toggle_never_leaves_an_empty_bar(
    m: ChromeModel,
    section: int,
    requested: bool,
    witness: int,
)
    requires
        m.sections.len() == SECTION_COUNT,
        0 <= section < SECTION_COUNT,
        0 <= witness < SECTION_COUNT,
        m.sections[witness],
    ensures
        forall|j: int|
            0 <= j < SECTION_COUNT && j != section ==> #[trigger] m.requested(section, requested).sections[j]
                == m.sections[j],
        m.requested(section, requested).toolbar ==> exists|j: int|
            0 <= j < SECTION_COUNT && #[trigger] m.requested(section, requested).sections[j],
{
    let r = m.requested(section, requested);
    if r.toolbar && m.toolbar {
        if requested {
            assert(r.sections[section]);
        } else {
            let j = choose|j: int| 0 <= j < SECTION_COUNT && j != section && #[trigger] m.sections[j];
            assert(r.sections[j]);
        }
    } else if r.toolbar {
        assert(r.sections[witness]);
    }
}

/// The bar's toggle never writes a section's tick, and the section items are
/// enabled exactly while the bar is shown.
pub proof fn law_the_bar_never_touches_a_sections_tick(m: ChromeModel, on: bool)
    ensures
        m.with_toolbar(on).sections == m.sections,
        m.with_toolbar(on).toolbar == on,
{
}

} // verus!
