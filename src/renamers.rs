//! Renamers: what each illustration layout renames.
use vstd::prelude::*;
use crate::args::RenameOption;
use crate::renamers::kitsune_yukkuri::KitsuneYukkuri;

pub mod kitsune_yukkuri;

verus! {

/// Picks the renamer of a layout.
pub struct RenamerFactory;

impl RenamerFactory {
    pub fn create_renamer(rename_option: &RenameOption, input_folder: String) -> (r: KitsuneYukkuri)
        ensures
            r.input_folder == input_folder,
    {
        match rename_option {
            RenameOption::KitsuneYukkuri => KitsuneYukkuri { input_folder },
        }
    }
}

} // verus!
