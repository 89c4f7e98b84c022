//! Process execution and job control for a small command interpreter.
//!
//! The crate keeps the table of jobs of a shell session, decides how each
//! stage of a pipeline is started and wired to its neighbours, plans what a
//! child does to its descriptors, turns the outcome of waiting on a child
//! process into exit statuses and job states, and cuts command text into
//! words.
//!
//! The functions state in their contracts what they give, and Verus proves
//! the contracts. Three are taken on trust: those of the two functions in
//! [`wait`] that call `waitpid`, and the one given to `String::push` in
//! [`text`]. What a wait call reports is up to the system, so the functions
//! that wait say what holds of every report, and
//! `ShellCore::check_async_process`, whose answer is the report alone, says
//! nothing. The crate starts no process and touches no descriptor itself: it
//! says what is to be done, and its caller does it.

pub mod elem_command;
pub mod elem_compound_brace;
pub mod elem_compound_if;
pub mod elem_list;
pub mod element_list;
pub mod elems_in_command;
pub mod feeder;
pub mod job;
pub mod job_table;
pub mod parser_args;
pub mod pipeline;
pub mod redirect;
pub mod scanner;
pub mod shell_core;
pub mod subword_command_substitution;
pub mod text;
pub mod wait;
