//! A verified front end for a system-call tracer's diagnostic output: a
//! character-by-character parser that turns one line of trace text into a
//! structured call record and is total (every line yields a record, malformed
//! ones a failure record), together with the pure decision logic of the
//! producer pipeline that streams records to a consumer.
pub mod grammar;
pub mod grammar_lemmas;
pub mod parser;
pub mod pipeline;
pub mod syscall;
