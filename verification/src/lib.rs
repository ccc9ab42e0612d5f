//! Editing logic for a knowledge base of logical terms: the terms and their
//! store, the lists that record how they were edited, the screens and tabs
//! in which terms are edited, the propagation of a term's edits to the
//! terms that mention it or that it mentions, the approvals that a change
//! of several terms waits for, and the queries asked about a term.
pub mod model;
pub mod terms_filter;
pub mod change_tracking_list;
pub mod drag_and_drop;
pub mod placeholder;
pub mod points_in_time;
pub mod term_screen;
pub mod edit_screen;
pub mod term_text;
pub mod term_list;
pub mod tabs;
pub mod change_propagator;
pub mod batch_propagation;
pub mod related_terms;
pub mod two_phase_commit;
pub mod commit;
pub mod ask;
pub mod load_module;
