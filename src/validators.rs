//! Validators: the pre-flight checks of each illustration layout.
use vstd::prelude::*;
use crate::args::RenameOption;
use crate::validators::kitsune_yukkuri::KitsuneYukkuri;

pub mod kitsune_yukkuri;

verus! {

/// Picks the validator of a layout.
pub struct ValidatorFactory;

impl ValidatorFactory {
    pub fn create_validator(rename_option: &RenameOption, input_folder: String) -> (r: KitsuneYukkuri)
        ensures
            r.input_folder == input_folder,
    {
        match rename_option {
            RenameOption::KitsuneYukkuri => KitsuneYukkuri { input_folder },
        }
    }
}

} // verus!
