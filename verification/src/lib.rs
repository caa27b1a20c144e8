//! A minimal interactive command-line interpreter, as a verified library.
//!
//! The library covers the logic of the interpreter: the quote-aware
//! tokenizer that splits an input line into argument tokens, the parser
//! that maps a token sequence onto a closed set of command variants, the
//! resolver that searches an ordered list of directories for an
//! executable of a given name, and the decision functions of the
//! executor that fix the exact messages and exit statuses the
//! interpreter produces.  Reading lines, printing, changing directory
//! and spawning child processes are side effects performed by the
//! surrounding program, which obtains everything it prints or does from
//! the functions here.

pub mod command;
pub mod executor;
pub mod resolver;
pub mod tokenizer;

pub use command::CommandView;
pub use command::Commands;
pub use command::parse_i32;
pub use executor::cd_error_line;
pub use executor::cd_home_error_line;
pub use executor::echo_line;
pub use executor::exit_status;
pub use executor::external_exit_code;
pub use executor::not_found_line;
pub use executor::pwd_error_line;
pub use executor::resolve_cd_target;
pub use executor::run_type;
pub use executor::spawn_error_line;
pub use executor::type_line;
pub use resolver::split_colon;
pub use tokenizer::QuoteState;
pub use tokenizer::SpecialChar;
pub use tokenizer::tokenize;
