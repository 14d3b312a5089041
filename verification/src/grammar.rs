//! The grammar of one trace line, written down as total spec functions over
//! `Seq<char>`.  These functions are the reference semantics of the parser:
//! each one consumes a piece of the line starting at a given position and says
//! exactly what value results and where the next token begins.  The executable
//! parser is proved equal to them.
use vstd::prelude::*;

use crate::syscall::ArgModel;
use crate::syscall::ErrorDetailsModel;
use crate::syscall::FlagModel;
use crate::syscall::SyscallModel;
use crate::syscall::ValueModel;

verus! {

/// Why parsing stopped early.
#[derive(Debug, Clone, Copy)]
pub enum ParseError {
    /// a symbol was required and the current character cannot start one
    ExpectedName,
    /// the line ended where a character was required
    UnexpectedEnd,
    /// a particular character was required and something else stands there
    Expected(char),
    /// a named argument's `=` was not followed by a value
    ExpectedArgAfterEq,
    /// a struct field's `=` was not followed by a value
    StructFieldMissingValue,
    /// no value form starts with the current character
    CouldNotParseArg,
    /// a numeric literal was required and its digit run is empty
    ExpectedNumber,
}

impl ParseError {
    /// The message text of this failure.
    pub fn message_text(&self) -> (r: String)
        ensures
            r@ == spec_message(*self),
    {
        match self {
            ParseError::ExpectedName => "expected to see name".to_owned(),
            ParseError::UnexpectedEnd => "end of file".to_owned(),
            ParseError::Expected(_) => "unexpected character".to_owned(),
            ParseError::ExpectedArgAfterEq => "expected argument after '='".to_owned(),
            ParseError::StructFieldMissingValue => "struct field missing value".to_owned(),
            ParseError::CouldNotParseArg => "could not parse arg".to_owned(),
            ParseError::ExpectedNumber => "expected a number".to_owned(),
        }
    }
}

/// How many characters of `s` remain at position `i` (zero past the end);
/// the termination measure of every scan.
pub open spec fn remaining(s: Seq<char>, i: int) -> nat {
    if i <= s.len() {
        (s.len() - i) as nat
    } else {
        0
    }
}

/// The character at position `i`, or `None` past either end.
pub open spec fn char_at(s: Seq<char>, i: int) -> Option<char> {
    if 0 <= i < s.len() {
        Some(s[i])
    } else {
        None
    }
}

/// ASCII whitespace: space, tab, newline, form feed, carriage return.
pub open spec fn is_space(c: char) -> bool {
    c == ' ' || c == '\t' || c == '\n' || c == '\u{c}' || c == '\r'
}

/// ASCII letters, which may start a symbol.
pub open spec fn is_symbol_start(c: char) -> bool {
    ('a' as u32 <= c as u32 && c as u32 <= 'z' as u32) || ('A' as u32 <= c as u32 && c as u32
        <= 'Z' as u32)
}

/// ASCII decimal digits.
pub open spec fn is_digit(c: char) -> bool {
    '0' as u32 <= c as u32 && c as u32 <= '9' as u32
}

/// Characters that may continue a symbol: letters, digits and underscore.
pub open spec fn is_symbol_continue(c: char) -> bool {
    is_symbol_start(c) || is_digit(c) || c == '_'
}

/// The value of `c` as a digit under `radix` (8, 10 or 16), if it is one.
pub open spec fn digit_value(c: char, radix: u32) -> Option<u32> {
    let v: int = if is_digit(c) {
        c as u32 - '0' as u32
    } else if 'a' as u32 <= c as u32 && c as u32 <= 'z' as u32 {
        c as u32 - 'a' as u32 + 10
    } else if 'A' as u32 <= c as u32 && c as u32 <= 'Z' as u32 {
        c as u32 - 'A' as u32 + 10
    } else {
        99
    };
    if v < radix {
        Some(v as u32)
    } else {
        None
    }
}

/// How many whitespace characters stand at position `i`.
pub open spec fn spaces_count(s: Seq<char>, i: int) -> nat
    decreases remaining(s, i),
{
    match char_at(s, i) {
        Some(c) => if is_space(c) {
            1 + spaces_count(s, i + 1)
        } else {
            0
        },
        None => 0,
    }
}

/// Length of the rest of a comment body up to and including a closing `*/`,
/// or up to the end of the line when the comment is unterminated.
pub open spec fn comment_body_count(s: Seq<char>, i: int) -> nat
    decreases remaining(s, i),
{
    match char_at(s, i) {
        Some(c) => if c == '*' && char_at(s, i + 1) == Some('/') {
            2
        } else {
            1 + comment_body_count(s, i + 1)
        },
        None => 0,
    }
}

/// Length of one `/* ... */` comment at position `i`, or zero.
pub open spec fn comment_count(s: Seq<char>, i: int) -> nat {
    if char_at(s, i) == Some('/') && char_at(s, i + 1) == Some('*') {
        2 + comment_body_count(s, i + 2)
    } else {
        0
    }
}

/// Length of the skippable stretch at position `i`: any run of whitespace
/// and `/* ... */` comments, however many, in any order.
pub open spec fn trivia_count(s: Seq<char>, i: int) -> nat
    decreases remaining(s, i),
{
    let a = spaces_count(s, i);
    let b = comment_count(s, i + a);
    if 0 <= i < s.len() && a + b > 0 {
        a + b + trivia_count(s, i + a + b)
    } else {
        0
    }
}

/// How many symbol-continuation characters stand at position `i`.
pub open spec fn symbol_tail_count(s: Seq<char>, i: int) -> nat
    decreases remaining(s, i),
{
    match char_at(s, i) {
        Some(c) => if is_symbol_continue(c) {
            1 + symbol_tail_count(s, i + 1)
        } else {
            0
        },
        None => 0,
    }
}

/// A symbol at position `i`: a letter followed by symbol-continuation
/// characters.  A symbol is never empty: where the line has ended, or the
/// current character cannot start one, the symbol is malformed.  Returns the
/// symbol's text and its length.
pub open spec fn spec_symbol(s: Seq<char>, i: int) -> Result<(Seq<char>, nat), ParseError> {
    match char_at(s, i) {
        None => Err(ParseError::UnexpectedEnd),
        Some(c) => if !is_symbol_start(c) {
            Err(ParseError::ExpectedName)
        } else {
            let n: nat = 1 + symbol_tail_count(s, i + 1);
            Ok((s.subrange(i, i + n), n))
        },
    }
}

/// Exactly the character `c` must stand at position `i`; one character is
/// consumed.
pub open spec fn spec_require(s: Seq<char>, i: int, c: char) -> Result<(), ParseError> {
    match char_at(s, i) {
        None => Err(ParseError::UnexpectedEnd),
        Some(a) => if a == c {
            Ok(())
        } else {
            Err(ParseError::Expected(c))
        },
    }
}

/// The radix selected by a numeric prefix at position `i` (16 after `0x`,
/// 8 after a `0` followed by another digit, 10 otherwise), and the prefix's
/// length.
pub open spec fn radix_prefix(s: Seq<char>, i: int) -> (u32, nat) {
    if char_at(s, i) == Some('0') && char_at(s, i + 1) == Some('x') {
        (16u32, 2nat)
    } else if char_at(s, i) == Some('0') && (match char_at(s, i + 1) {
        Some(d) => is_digit(d),
        None => false,
    }) {
        (8u32, 1nat)
    } else {
        (10u32, 0nat)
    }
}

/// The run of digits under `radix` at position `i`, folded into `acc` with
/// 64-bit wrapping arithmetic, together with the run's length.
pub open spec fn digits_value(s: Seq<char>, i: int, radix: u32, acc: i64) -> (i64, nat)
    decreases remaining(s, i),
{
    match char_at(s, i) {
        Some(c) => match digit_value(c, radix) {
            Some(v) => {
                let step = vstd::wrapping::i64_specs::wrapping_add(
                    vstd::wrapping::i64_specs::wrapping_mul(acc, radix as i64),
                    v as i64,
                );
                let (r, n) = digits_value(s, i + 1, radix, step);
                (r, 1 + n)
            },
            None => (acc, 0),
        },
        None => (acc, 0),
    }
}

/// A signed integer literal at position `i`: an optional minus sign, an
/// optional radix prefix, then at least one digit under the selected radix —
/// an empty digit run is malformed.  Wrapping arithmetic.
pub open spec fn spec_number(s: Seq<char>, i: int) -> Result<(i64, nat), ParseError> {
    let neg = char_at(s, i) == Some('-');
    let i1 = if neg {
        i + 1
    } else {
        i
    };
    let (radix, n1) = radix_prefix(s, i1);
    let (mag, n2) = digits_value(s, i1 + n1, radix, 0);
    if n2 == 0 {
        Err(ParseError::ExpectedNumber)
    } else {
        let v = if neg {
            vstd::wrapping::i64_specs::wrapping_sub(0, mag)
        } else {
            mag
        };
        Ok(
            (
                v,
                (if neg {
                    1nat
                } else {
                    0nat
                }) + n1 + n2,
            ),
        )
    }
}

/// The position of the closing quote of a quoted string whose body starts at
/// `j`; a backslash always escapes the following character.
pub open spec fn quoted_close(s: Seq<char>, j: int) -> Result<int, ParseError>
    decreases remaining(s, j),
{
    match char_at(s, j) {
        None => Err(ParseError::UnexpectedEnd),
        Some(c) => if c == '"' {
            Ok(j)
        } else if c == '\\' {
            quoted_close(s, j + 2)
        } else {
            quoted_close(s, j + 1)
        },
    }
}

/// Whether a literal `...` stands at position `i`.
pub open spec fn ellipsis_at(s: Seq<char>, i: int) -> bool {
    char_at(s, i) == Some('.') && char_at(s, i + 1) == Some('.') && char_at(s, i + 2) == Some('.')
}

/// A quoted string at position `i`: its text (escapes kept verbatim), whether
/// a trailing `...` marks it truncated, and the position after it.
pub open spec fn spec_quoted(s: Seq<char>, i: int) -> Result<((Seq<char>, bool), int), ParseError> {
    match spec_require(s, i, '"') {
        Err(e) => Err(e),
        Ok(_) => match quoted_close(s, i + 1) {
            Err(e) => Err(e),
            Ok(end) => {
                let trunc = ellipsis_at(s, end + 1);
                let next = if trunc {
                    end + 4
                } else {
                    end + 1
                };
                Ok(((s.subrange(i + 1, end), trunc), next))
            },
        },
    }
}

/// The `|`-separated alternatives of a flag set, each a symbol or a numeric
/// literal, accumulated onto `acc`; returns the position after the last one.
/// Every `|` must be followed by an alternative: a line that ends right
/// after one is malformed.
pub open spec fn spec_flag_items(s: Seq<char>, i: int, acc: Seq<FlagModel>) -> Result<
    (Seq<FlagModel>, int),
    ParseError,
>
    decreases remaining(s, i),
{
    match char_at(s, i) {
        None => Err(ParseError::UnexpectedEnd),
        Some(c) => if is_digit(c) {
            match spec_number(s, i) {
                Err(e) => Err(e),
                Ok((v, n)) => {
                    let acc2 = acc.push(FlagModel::Bits(v));
                    let j = i + n;
                    if char_at(s, j) == Some('|') {
                        spec_flag_items(s, j + 1, acc2)
                    } else {
                        Ok((acc2, j))
                    }
                },
            }
        } else {
            match spec_symbol(s, i) {
                Err(e) => Err(e),
                Ok((t, n)) => {
                    let acc2 = acc.push(FlagModel::Symbol(t));
                    let j = i + n;
                    if char_at(s, j) == Some('|') {
                        spec_flag_items(s, j + 1, acc2)
                    } else {
                        Ok((acc2, j))
                    }
                },
            }
        },
    }
}

/// A flag set whose first symbol `first` has already been read; position `i`
/// must hold the first `|`.
pub open spec fn spec_flagset(s: Seq<char>, i: int, first: Seq<char>) -> Result<
    (Seq<FlagModel>, int),
    ParseError,
> {
    match spec_require(s, i, '|') {
        Err(e) => Err(e),
        Ok(_) => spec_flag_items(s, i + 1, seq![FlagModel::Symbol(first)]),
    }
}

/// The first position of a field named `name` in `fields`, or `-1`.
pub open spec fn field_index(fields: Seq<ArgModel>, name: Seq<char>) -> int
    decreases fields.len(),
{
    if fields.len() == 0 {
        -1
    } else if fields[0].name == name {
        0
    } else {
        let r = field_index(fields.drop_first(), name);
        if r < 0 {
            -1
        } else {
            r + 1
        }
    }
}

/// Add a field to a struct's field list: a repeated name keeps its first
/// position and takes the new value, a fresh name goes to the end.
pub open spec fn upsert_field(fields: Seq<ArgModel>, a: ArgModel) -> Seq<ArgModel> {
    let j = field_index(fields, a.name);
    if j >= 0 {
        fields.update(j, a)
    } else {
        fields.push(a)
    }
}

/// One argument at position `i`: `None` when the line ends or a `)` stands
/// there.  Returns the position after the argument.  Before the argument,
/// trivia and one stray comma are skipped; this permissiveness (a comma
/// before the first argument, or a doubled comma, is tolerated rather than
/// rejected) is deliberate, matching how loosely the tracer punctuates.
pub open spec fn spec_arg(s: Seq<char>, i: int) -> Result<(Option<ArgModel>, int), ParseError>
    decreases remaining(s, i), 1int,
{
    let p0 = i + trivia_count(s, i);
    let p1 = if char_at(s, p0) == Some(',') {
        p0 + 1
    } else {
        p0
    };
    let p = p1 + trivia_count(s, p1);
    match char_at(s, p) {
        None => Ok((None, p)),
        Some(c) => if c == ')' {
            Ok((None, p))
        } else if is_symbol_start(c) {
            match spec_symbol(s, p) {
                Err(e) => Err(e),
                Ok((sym, n)) => {
                    let e = p + n;
                    if char_at(s, e) == Some('|') {
                        match spec_flagset(s, e, sym) {
                            Err(er) => Err(er),
                            Ok((fs, j)) => Ok(
                                (
                                    Some(
                                        ArgModel {
                                            name: Seq::<char>::empty(),
                                            value: ValueModel::FlagSet(fs),
                                        },
                                    ),
                                    j,
                                ),
                            ),
                        }
                    } else if char_at(s, e) == Some('=') {
                        match spec_arg(s, e + 1) {
                            Err(er) => Err(er),
                            Ok((None, _)) => Err(ParseError::ExpectedArgAfterEq),
                            Ok((Some(inner), j)) => Ok(
                                (Some(ArgModel { name: sym, value: inner.value }), j),
                            ),
                        }
                    } else if char_at(s, e) == Some('(') {
                        match spec_arg_list(s, e + 1, Seq::<ArgModel>::empty()) {
                            Err(er) => Err(er),
                            Ok((args, j)) => match spec_require(s, j, ')') {
                                Err(er) => Err(er),
                                Ok(_) => Ok(
                                    (
                                        Some(
                                            ArgModel {
                                                name: Seq::<char>::empty(),
                                                value: ValueModel::FunctionCall(sym, args),
                                            },
                                        ),
                                        j + 1,
                                    ),
                                ),
                            },
                        }
                    } else {
                        Ok(
                            (
                                Some(
                                    ArgModel {
                                        name: Seq::<char>::empty(),
                                        value: ValueModel::Symbol(sym),
                                    },
                                ),
                                e,
                            ),
                        )
                    }
                },
            }
        } else if is_digit(c) || c == '-' {
            match spec_number(s, p) {
                Err(er) => Err(er),
                Ok((x, n)) => {
                    let j = p + n;
                    if char_at(s, j) == Some('*') {
                        match spec_number(s, j + 1) {
                            Err(er) => Err(er),
                            Ok((x2, n2)) => Ok(
                                (
                                    Some(
                                        ArgModel {
                                            name: Seq::<char>::empty(),
                                            value: ValueModel::Product(x, x2),
                                        },
                                    ),
                                    j + 1 + n2,
                                ),
                            ),
                        }
                    } else {
                        Ok(
                            (
                                Some(
                                    ArgModel {
                                        name: Seq::<char>::empty(),
                                        value: ValueModel::Number(x),
                                    },
                                ),
                                j,
                            ),
                        )
                    }
                },
            }
        } else if c == '"' {
            match spec_quoted(s, p) {
                Err(er) => Err(er),
                Ok(((text, truncated), j)) => Ok(
                    (
                        Some(
                            ArgModel {
                                name: Seq::<char>::empty(),
                                value: ValueModel::Quoted { text, truncated },
                            },
                        ),
                        j,
                    ),
                ),
            }
        } else if c == '{' {
            match spec_struct(s, p) {
                Err(er) => Err(er),
                Ok((fields, j)) => Ok(
                    (Some(ArgModel { name: Seq::<char>::empty(), value: ValueModel::Struct(fields) }), j),
                ),
            }
        } else if c == '[' {
            match spec_array(s, p) {
                Err(er) => Err(er),
                Ok((items, j)) => Ok(
                    (Some(ArgModel { name: Seq::<char>::empty(), value: ValueModel::Array(items) }), j),
                ),
            }
        } else {
            Err(ParseError::CouldNotParseArg)
        },
    }
}

/// The arguments of an array or nested call, accumulated onto `acc`; stops
/// before a `]`, before a `)` (left for the caller) or at the end of the
/// line.  Commas are skipped with the same deliberate permissiveness as in
/// `spec_arg`.  An argument that consumes nothing would not move the scan,
/// so the list also stops there; arguments always consume at least one
/// character.
pub open spec fn spec_arg_list(s: Seq<char>, i: int, acc: Seq<ArgModel>) -> Result<
    (Seq<ArgModel>, int),
    ParseError,
>
    decreases remaining(s, i), 2int,
{
    let p0 = if char_at(s, i) == Some(',') {
        i + 1
    } else {
        i
    };
    let p = p0 + trivia_count(s, p0);
    match char_at(s, p) {
        None => Ok((acc, p)),
        Some(c) => if c == ']' {
            Ok((acc, p))
        } else {
            match spec_arg(s, p) {
                Err(e) => Err(e),
                Ok((None, j)) => Ok((acc, j)),
                Ok((Some(a), j)) => if i < j {
                    spec_arg_list(s, j, acc.push(a))
                } else {
                    Ok((acc.push(a), j))
                },
            }
        },
    }
}

/// The fields of a struct, accumulated onto `acc`: `name=value` pairs
/// separated by commas, ended by a bare `...` (elided fields), by a
/// non-letter or by the end of the line.  Each entry carries the field's
/// name and the value's shape; a name the value itself would carry (a named
/// argument standing as a field value) is not kept.  The same progress
/// guard as in `spec_arg_list` applies.
pub open spec fn spec_struct_fields(s: Seq<char>, i: int, acc: Seq<ArgModel>) -> Result<
    (Seq<ArgModel>, int),
    ParseError,
>
    decreases remaining(s, i), 2int,
{
    let p0 = if char_at(s, i) == Some(',') {
        i + 1
    } else {
        i
    };
    let p = p0 + trivia_count(s, p0);
    if ellipsis_at(s, p) {
        Ok((acc, p + 3))
    } else {
        match char_at(s, p) {
            None => Ok((acc, p)),
            Some(c) => if !is_symbol_start(c) {
                Ok((acc, p))
            } else {
                match spec_symbol(s, p) {
                    Err(e) => Err(e),
                    Ok((field, n)) => {
                        let e = p + n;
                        match spec_require(s, e, '=') {
                            Err(er) => Err(er),
                            Ok(_) => match spec_arg(s, e + 1) {
                                Err(er) => Err(er),
                                Ok((None, _)) => Err(ParseError::StructFieldMissingValue),
                                Ok((Some(v), j)) => {
                                    let acc2 = upsert_field(
                                        acc,
                                        ArgModel { name: field, value: v.value },
                                    );
                                    if i < j {
                                        spec_struct_fields(s, j, acc2)
                                    } else {
                                        Ok((acc2, j))
                                    }
                                },
                            },
                        }
                    },
                }
            },
        }
    }
}

/// A struct at position `i`: `{`, fields, `}`.
pub open spec fn spec_struct(s: Seq<char>, i: int) -> Result<(Seq<ArgModel>, int), ParseError>
    decreases remaining(s, i), 0int,
{
    match spec_require(s, i, '{') {
        Err(e) => Err(e),
        Ok(_) => match spec_struct_fields(s, i + 1, Seq::<ArgModel>::empty()) {
            Err(e) => Err(e),
            Ok((fields, j)) => match spec_require(s, j, '}') {
                Err(e) => Err(e),
                Ok(_) => Ok((fields, j + 1)),
            },
        },
    }
}

/// An array at position `i`: `[`, arguments, `]`.
pub open spec fn spec_array(s: Seq<char>, i: int) -> Result<(Seq<ArgModel>, int), ParseError>
    decreases remaining(s, i), 0int,
{
    match spec_require(s, i, '[') {
        Err(e) => Err(e),
        Ok(_) => match spec_arg_list(s, i + 1, Seq::<ArgModel>::empty()) {
            Err(e) => Err(e),
            Ok((items, j)) => match spec_require(s, j, ']') {
                Err(e) => Err(e),
                Ok(_) => Ok((items, j + 1)),
            },
        },
    }
}

/// The call's argument list at the top of a line, accumulated onto `acc`:
/// arguments until one of them reports the closing `)` or the end of the
/// line.  The same progress guard as in `spec_arg_list` applies.
pub open spec fn spec_args_top(s: Seq<char>, i: int, acc: Seq<ArgModel>) -> Result<
    (Seq<ArgModel>, int),
    ParseError,
>
    decreases remaining(s, i), 2int,
{
    match spec_arg(s, i) {
        Err(e) => Err(e),
        Ok((None, j)) => Ok((acc, j)),
        Ok((Some(a), j)) => if i < j && i < s.len() {
            spec_args_top(s, j, acc.push(a))
        } else {
            Ok((acc.push(a), j))
        },
    }
}

/// One whole line: `name(args) = value`, with trivia allowed around the `=`;
/// whatever follows the return value is ignored.  On failure, the name read
/// so far (possibly empty) is returned with the error.
pub open spec fn spec_parse_line(s: Seq<char>) -> Result<
    (Seq<char>, Seq<ArgModel>, i64),
    (Seq<char>, ParseError),
> {
    match spec_symbol(s, 0) {
        Err(e) => Err((Seq::<char>::empty(), e)),
        Ok((name, n0)) => match spec_require(s, n0 as int, '(') {
            Err(e) => Err((name, e)),
            Ok(_) => match spec_args_top(s, n0 + 1 as int, Seq::<ArgModel>::empty()) {
                Err(e) => Err((name, e)),
                Ok((args, j1)) => match spec_require(s, j1, ')') {
                    Err(e) => Err((name, e)),
                    Ok(_) => {
                        let j2 = (j1 + 1) + trivia_count(s, j1 + 1);
                        match spec_require(s, j2, '=') {
                            Err(e) => Err((name, e)),
                            Ok(_) => {
                                let j3 = (j2 + 1) + trivia_count(s, j2 + 1);
                                match spec_number(s, j3) {
                                    Err(e) => Err((name, e)),
                                    Ok((ret, _)) => Ok((name, args, ret)),
                                }
                            },
                        }
                    },
                },
            },
        },
    }
}

/// The record that parsing one whole line yields: a fully parsed call, or a
/// failure record holding the message, the line's full text, the name read
/// so far, no arguments and a zero return value.
pub open spec fn spec_parse_syscall(s: Seq<char>) -> SyscallModel {
    match spec_parse_line(s) {
        Ok((name, args, ret)) => SyscallModel {
            name,
            args,
            return_value: ret,
            error_details: None,
        },
        Err((name, e)) => SyscallModel {
            name,
            args: Seq::<ArgModel>::empty(),
            return_value: 0,
            error_details: Some(ErrorDetailsModel { message: spec_message(e), fulltext: s }),
        },
    }
}

/// A record is never partially valid: either parsing consumed the grammar up
/// to the return value and no failure is recorded, or a failure is recorded
/// and the record carries only the name read so far, no arguments, a zero
/// return value, and the line's full text.
pub proof fn lemma_record_all_or_nothing(s: Seq<char>)
    ensures
        ({
            let m = spec_parse_syscall(s);
            m.error_details is Some ==> m.args.len() == 0 && m.return_value == 0
                && m.error_details->Some_0.fulltext == s
        }),
{
}

/// The fixed message text of each failure.
pub open spec fn spec_message(e: ParseError) -> Seq<char> {
    match e {
        ParseError::ExpectedName => "expected to see name"@,
        ParseError::UnexpectedEnd => "end of file"@,
        ParseError::Expected(_) => "unexpected character"@,
        ParseError::ExpectedArgAfterEq => "expected argument after '='"@,
        ParseError::StructFieldMissingValue => "struct field missing value"@,
        ParseError::CouldNotParseArg => "could not parse arg"@,
        ParseError::ExpectedNumber => "expected a number"@,
    }
}

} // verus!
