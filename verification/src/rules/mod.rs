//! The whitespace rules.

pub mod common;
pub mod typecast_paren_pad;
pub mod paren_pad;
pub mod method_param_pad;
pub mod empty_for_initializer_pad;
pub mod no_whitespace_before;
pub mod no_whitespace_after;
pub mod whitespace_after;
pub mod whitespace_around;
pub mod operator_wrap;
pub mod single_space_separator;
pub mod file_tab_character;
pub mod empty_line_separator;
pub mod indentation;
