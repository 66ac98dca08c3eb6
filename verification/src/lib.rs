//! A self-describing data-interchange format: a dynamically typed [`value::Value`]
//! tree, the rules that turn native shapes into such trees and back, and a
//! human-readable text syntax with a parser and two printers.

pub mod value;
