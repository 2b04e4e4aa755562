use vstd::prelude::*;

verus! {

/// State of the save-file interaction: whether the surrounding application
/// should run the save dialog on its next pass. The dialog itself and the
/// image encoding are the application's concern; the canvas hands it a flat
/// RGBA byte buffer.
pub struct FileInteractions {
    pub show_save_dialog: bool,
}

impl Default for FileInteractions {
    fn default() -> (f: FileInteractions)
        ensures
            !f.show_save_dialog,
    {
        FileInteractions::new()
    }
}

impl FileInteractions {
    pub fn new() -> (f: FileInteractions)
        ensures
            !f.show_save_dialog,
    {
        FileInteractions { show_save_dialog: false }
    }
}

} // verus!
