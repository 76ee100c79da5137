//! One module per page that the library parses.

pub mod athlete_list;
pub mod athlete_profile_mobile;
pub mod competition_detail_mobile;
pub mod competition_program_mobile;
pub mod competitions_list_mobile;
pub mod competition_registrations_list;
