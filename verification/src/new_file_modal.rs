use vstd::prelude::*;

verus! {

/// State of the new-canvas dialog: the grid size being entered and the two
/// flags that keep the window open until it is either confirmed or dismissed.
pub struct NewFileModal {
    pub width: usize,
    pub height: usize,
    pub show_modal: bool,
    pub show_modal_toggle: bool,
}

impl Default for NewFileModal {
    /// A dialog prefilled with the default grid size, not yet shown.
    fn default() -> (m: NewFileModal)
        ensures
            m.width == crate::canvas::DEFAULT_SIZE,
            m.height == crate::canvas::DEFAULT_SIZE,
            !m.show_modal,
            !m.show_modal_toggle,
    {
        NewFileModal {
            width: crate::canvas::DEFAULT_SIZE,
            height: crate::canvas::DEFAULT_SIZE,
            show_modal: false,
            show_modal_toggle: false,
        }
    }
}

impl NewFileModal {
    /// Opens the dialog.
    pub fn activate(&mut self)
        ensures
            *final(self) == (NewFileModal {
                show_modal: true,
                show_modal_toggle: true,
                ..*old(self)
            }),
    {
        self.show_modal = true;
        self.show_modal_toggle = true;
    }

    /// Whether the dialog is currently shown.
    pub fn is_active(&self) -> (r: bool)
        ensures
            r == (self.show_modal && self.show_modal_toggle),
    {
        self.show_modal && self.show_modal_toggle
    }
}

} // verus!
