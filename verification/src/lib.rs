pub mod text;
pub mod status_pattern;
pub mod yml;
pub mod open_api;
pub mod fill_curl;
pub mod my_requests;
pub mod laws;
pub mod round_trip;
pub mod operation_laws;
