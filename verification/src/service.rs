pub mod poker_service;
pub mod score_spec;
