//! The executable line parser: a recursive-descent scanner over the
//! characters of one line.  Every method is proved equal to the corresponding
//! spec function of the grammar, so `parse_syscall` returns exactly
//! `spec_parse_syscall` of its input — for every input, without panicking.
use vstd::prelude::*;

use vstd::string::StrSliceExecFns;
use vstd::string::StringExecFns;

use crate::grammar::char_at;
use crate::grammar::comment_body_count;
use crate::grammar::comment_count;
use crate::grammar::digit_value;
use crate::grammar::digits_value;
use crate::grammar::ellipsis_at;
use crate::grammar::is_digit;
use crate::grammar::is_space;
use crate::grammar::is_symbol_continue;
use crate::grammar::is_symbol_start;
use crate::grammar::quoted_close;
use crate::grammar::radix_prefix;
use crate::grammar::remaining;
use crate::grammar::spaces_count;
use crate::grammar::spec_number;
use crate::grammar::spec_quoted;
use crate::grammar::spec_require;
use crate::grammar::spec_symbol;
use crate::grammar::symbol_tail_count;
use crate::grammar::trivia_count;
use crate::grammar::field_index;
use crate::grammar::spec_arg;
use crate::grammar::spec_arg_list;
use crate::grammar::spec_args_top;
use crate::grammar::spec_array;
use crate::grammar::spec_flag_items;
use crate::grammar::spec_flagset;
use crate::grammar::spec_parse_line;
use crate::grammar::spec_parse_syscall;
use crate::grammar::spec_struct;
use crate::grammar::spec_struct_fields;
use crate::grammar::upsert_field;
use crate::grammar::ParseError;
use crate::grammar_lemmas::lemma_field_index;
use crate::grammar_lemmas::lemma_quoted_close;
use crate::grammar_lemmas::lemma_spec_arg;
use crate::grammar_lemmas::lemma_spec_number;
use crate::grammar_lemmas::lemma_spec_symbol;
use crate::syscall::arg_model;
use crate::syscall::args_model;
use crate::syscall::flags_model;
use crate::syscall::lemma_args_model_index;
use crate::syscall::lemma_args_model_push;
use crate::syscall::lemma_args_model_update;
use crate::syscall::lemma_flags_model_push;
use crate::syscall::opt_arg_model;
use crate::syscall::ArgModel;
use crate::syscall::ErrorDetailsModel;
use crate::syscall::FlagModel;
use crate::syscall::FlagSetValue;
use crate::syscall::Syscall;
use crate::syscall::SyscallArg;
use crate::syscall::SyscallArgValue;
use crate::syscall::SyscallErrorDetails;
use crate::syscall::SyscallModel;

verus! {

broadcast use vstd::seq::group_seq_axioms, vstd::std_specs::vec::group_vec_axioms;

/// ASCII whitespace, as the grammar has it.
pub fn is_space_char(c: char) -> (b: bool)
    ensures
        b == is_space(c),
{
    c == ' ' || c == '\t' || c == '\n' || c == '\u{c}' || c == '\r'
}

/// A character that may start a symbol.
pub fn is_symbol_start_char(c: char) -> (b: bool)
    ensures
        b == is_symbol_start(c),
{
    let u = c as u32;
    (97 <= u && u <= 122) || (65 <= u && u <= 90)
}

/// An ASCII decimal digit.
pub fn is_digit_char(c: char) -> (b: bool)
    ensures
        b == is_digit(c),
{
    let u = c as u32;
    48 <= u && u <= 57
}

/// A character that may continue a symbol.
pub fn is_symbol_continue_char(c: char) -> (b: bool)
    ensures
        b == is_symbol_continue(c),
{
    is_symbol_start_char(c) || is_digit_char(c) || c == '_'
}

/// The value of `c` as a digit under `radix`, if it is one.
pub fn digit_of(c: char, radix: u32) -> (r: Option<u32>)
    ensures
        r == digit_value(c, radix),
{
    let u = c as u32;
    let v: u32 = if 48 <= u && u <= 57 {
        u - 48
    } else if 97 <= u && u <= 122 {
        u - 97 + 10
    } else if 65 <= u && u <= 90 {
        u - 65 + 10
    } else {
        99
    };
    if v < radix {
        Some(v)
    } else {
        None
    }
}

/// A cursor over the characters of one line.  `consume_*` methods are called
/// with the cursor on the first character of a token and leave it on the
/// first character of the next token.
pub struct SyscallParser<'a> {
    text: &'a str,
    length: usize,
    index: usize,
    current_name: String,
}

impl<'a> SyscallParser<'a> {
    /// The line being parsed.
    pub closed spec fn input(&self) -> Seq<char> {
        self.text@
    }

    /// The cursor position, in characters from the start of the line.
    pub closed spec fn pos(&self) -> int {
        self.index as int
    }

    /// The call name read so far (empty until the line's symbol is read).
    pub closed spec fn name(&self) -> Seq<char> {
        self.current_name@
    }

    /// The cursor stays inside its line.
    pub closed spec fn wf(&self) -> bool {
        self.length == self.text@.len() && self.index <= self.length
    }

    /// `self` continues the same parse as `other`: same line, same name.
    pub open spec fn same_line(&self, other: &Self) -> bool {
        self.input() == other.input() && self.name() == other.name()
    }

    pub fn new(text: &'a str) -> (r: Self)
        ensures
            r.wf(),
            r.input() == text@,
            r.pos() == 0,
            r.name() == Seq::<char>::empty(),
    {
        Self { text, length: text.unicode_len(), index: 0, current_name: String::new() }
    }

    /// Whether the cursor is at the end of the line.
    pub fn done(&self) -> (b: bool)
        requires
            self.wf(),
        ensures
            b == (self.pos() >= self.input().len()),
    {
        self.index >= self.length
    }

    /// The character under the cursor, if any; the cursor does not move.
    pub fn read(&self) -> (r: Option<char>)
        requires
            self.wf(),
        ensures
            r == char_at(self.input(), self.pos()),
    {
        if self.index >= self.length {
            None
        } else {
            Some(self.text.get_char(self.index))
        }
    }

    /// As `read`, but the end of the line is a failure.
    pub fn read_no_eof(&self) -> (r: Result<char, ParseError>)
        requires
            self.wf(),
        ensures
            match char_at(self.input(), self.pos()) {
                Some(c) => r == Ok::<char, ParseError>(c),
                None => r == Err::<char, ParseError>(ParseError::UnexpectedEnd),
            },
    {
        match self.read() {
            Some(c) => Ok(c),
            None => Err(ParseError::UnexpectedEnd),
        }
    }

    /// The character under the cursor and the one after it.
    pub fn read_two(&self) -> (r: (Option<char>, Option<char>))
        requires
            self.wf(),
        ensures
            r.0 == char_at(self.input(), self.pos()),
            r.1 == char_at(self.input(), self.pos() + 1),
    {
        let a = if self.index < self.length {
            Some(self.text.get_char(self.index))
        } else {
            None
        };
        let b = if self.length - self.index >= 2 {
            Some(self.text.get_char(self.index + 1))
        } else {
            None
        };
        (a, b)
    }

    /// Whether the line continues with `prefix` at the cursor.
    pub fn starts_with(&self, prefix: &str) -> (b: bool)
        requires
            self.wf(),
        ensures
            b == (self.pos() + prefix@.len() <= self.input().len() && self.input().subrange(
                self.pos(),
                self.pos() + prefix@.len(),
            ) == prefix@),
    {
        let m = prefix.unicode_len();
        if self.length - self.index < m {
            return false;
        }
        let mut k: usize = 0;
        while k < m
            invariant
                self.wf(),
                k <= m,
                m == prefix@.len(),
                self.index + m <= self.length,
                forall|j: int| 0 <= j < k ==> self.input()[self.pos() + j] == prefix@[j],
            decreases m - k,
        {
            if self.text.get_char(self.index + k) != prefix.get_char(k) {
                assert(self.input().subrange(self.pos(), self.pos() + prefix@.len())[k as int]
                    != prefix@[k as int]);
                return false;
            }
            k = k + 1;
        }
        assert(self.input().subrange(self.pos(), self.pos() + prefix@.len()) =~= prefix@);
        true
    }

    /// Move the cursor one character ahead.
    pub fn advance(&mut self)
        requires
            old(self).wf(),
            old(self).pos() < old(self).input().len(),
        ensures
            final(self).wf(),
            final(self).same_line(old(self)),
            final(self).pos() == old(self).pos() + 1,
    {
        self.index = self.index + 1;
    }

    /// Move the cursor `n` characters ahead.
    pub fn advance_n(&mut self, n: usize)
        requires
            old(self).wf(),
            old(self).pos() + n <= old(self).input().len(),
        ensures
            final(self).wf(),
            final(self).same_line(old(self)),
            final(self).pos() == old(self).pos() + n,
    {
        self.index = self.index + n;
    }

    /// Step over one occurrence of `c`, if it stands under the cursor.
    pub fn skip(&mut self, c: char)
        requires
            old(self).wf(),
        ensures
            final(self).wf(),
            final(self).same_line(old(self)),
            final(self).pos() == if char_at(old(self).input(), old(self).pos()) == Some(c) {
                old(self).pos() + 1
            } else {
                old(self).pos()
            },
    {
        match self.read() {
            Some(a) => {
                if a == c {
                    self.advance();
                }
            },
            None => {},
        }
    }

    /// Exactly `expected` must stand under the cursor; step over it.
    pub fn require(&mut self, expected: char) -> (r: Result<(), ParseError>)
        requires
            old(self).wf(),
        ensures
            final(self).wf(),
            final(self).same_line(old(self)),
            r == spec_require(old(self).input(), old(self).pos(), expected),
            r is Ok ==> final(self).pos() == old(self).pos() + 1,
            r is Err ==> final(self).pos() == old(self).pos(),
    {
        match self.read_no_eof() {
            Err(e) => Err(e),
            Ok(actual) => {
                if actual == expected {
                    self.advance();
                    Ok(())
                } else {
                    Err(ParseError::Expected(expected))
                }
            },
        }
    }

    /// Step over whitespace.
    pub fn whitespace(&mut self)
        requires
            old(self).wf(),
        ensures
            final(self).wf(),
            final(self).same_line(old(self)),
            final(self).pos() == old(self).pos() + spaces_count(old(self).input(), old(self).pos()),
    {
        let ghost s = self.input();
        let ghost i0 = self.pos();
        loop
            invariant_except_break
                self.wf(),
                self.input() == s,
                self.name() == old(self).name(),
                i0 <= self.pos() <= s.len(),
                i0 + spaces_count(s, i0) == self.pos() + spaces_count(s, self.pos()),
            ensures
                self.wf(),
                self.input() == s,
                self.name() == old(self).name(),
                self.pos() == i0 + spaces_count(s, i0),
            decreases s.len() - self.pos(),
        {
            match self.read() {
                None => {
                    break ;
                },
                Some(c) => {
                    if !is_space_char(c) {
                        break ;
                    }
                    self.advance();
                },
            }
        }
    }

    /// Step over one `/* ... */` comment, if one starts under the cursor; an
    /// unterminated comment runs to the end of the line.
    pub fn comments(&mut self)
        requires
            old(self).wf(),
        ensures
            final(self).wf(),
            final(self).same_line(old(self)),
            final(self).pos() == old(self).pos() + comment_count(
                old(self).input(),
                old(self).pos(),
            ),
    {
        let ghost s = self.input();
        let two = self.read_two();
        if let (Some('/'), Some('*')) = two {
            self.advance_n(2);
            let ghost b0 = self.pos();
            loop
                invariant_except_break
                    self.wf(),
                    self.input() == s,
                    self.name() == old(self).name(),
                    b0 <= self.pos() <= s.len(),
                    b0 + comment_body_count(s, b0) == self.pos() + comment_body_count(
                        s,
                        self.pos(),
                    ),
                ensures
                    self.wf(),
                    self.input() == s,
                    self.name() == old(self).name(),
                    self.pos() == b0 + comment_body_count(s, b0),
                decreases s.len() - self.pos(),
            {
                if self.done() {
                    break ;
                }
                let two2 = self.read_two();
                if let (Some('*'), Some('/')) = two2 {
                    self.advance_n(2);
                    break ;
                }
                self.advance();
            }
        }
    }

    /// Step over whitespace and comments, however many, until neither
    /// stands under the cursor.
    #[verifier::loop_isolation(false)]
    pub fn whitespace_comments(&mut self)
        requires
            old(self).wf(),
        ensures
            final(self).wf(),
            final(self).same_line(old(self)),
            final(self).pos() == old(self).pos() + trivia_count(old(self).input(), old(self).pos()),
    {
        let ghost s = self.input();
        let ghost i0 = self.pos();
        loop
            invariant
                self.wf(),
                self.input() == s,
                self.name() == old(self).name(),
                i0 <= self.pos() <= s.len(),
                i0 + trivia_count(s, i0) == self.pos() + trivia_count(s, self.pos()),
            decreases s.len() - self.pos(),
        {
            let before = self.index;
            let ghost p = self.pos();
            self.whitespace();
            self.comments();
            if self.index == before {
                proof {
                    assert(trivia_count(s, p) == 0);
                }
                return ;
            }
            proof {
                assert(trivia_count(s, p) == spaces_count(s, p) + comment_count(
                    s,
                    p + spaces_count(s, p),
                ) + trivia_count(s, self.pos()));
            }
        }
    }

    /// Read a symbol: a letter and its continuation characters; a symbol is
    /// never empty.
    pub fn consume_symbol(&mut self) -> (r: Result<String, ParseError>)
        requires
            old(self).wf(),
        ensures
            final(self).wf(),
            final(self).same_line(old(self)),
            match spec_symbol(old(self).input(), old(self).pos()) {
                Ok((t, n)) => r is Ok && r->Ok_0@ == t && final(self).pos() == old(self).pos() + n,
                Err(e) => r is Err && r->Err_0 == e && final(self).pos() == old(self).pos(),
            },
    {
        let ghost s = self.input();
        let ghost i0 = self.pos();
        let start = self.index;
        match self.read() {
            None => {
                return Err(ParseError::UnexpectedEnd);
            },
            Some(c) => {
                if !is_symbol_start_char(c) {
                    return Err(ParseError::ExpectedName);
                }
                self.advance();
            },
        }
        loop
            invariant_except_break
                self.wf(),
                self.input() == s,
                self.name() == old(self).name(),
                i0 + 1 <= self.pos() <= s.len(),
                start == i0,
                i0 + 1 + symbol_tail_count(s, i0 + 1) == self.pos() + symbol_tail_count(
                    s,
                    self.pos(),
                ),
            ensures
                self.wf(),
                self.input() == s,
                self.name() == old(self).name(),
                start == i0,
                self.pos() == i0 + 1 + symbol_tail_count(s, i0 + 1),
            decreases s.len() - self.pos(),
        {
            match self.read() {
                None => {
                    break ;
                },
                Some(c) => {
                    if !is_symbol_continue_char(c) {
                        break ;
                    }
                    self.advance();
                },
            }
        }
        let sub = self.text.substring_char(start, self.index);
        Ok(sub.to_owned())
    }

    /// Read the radix prefix of a numeric literal and return the radix.
    pub fn consume_optional_i64_prefix(&mut self) -> (r: u32)
        requires
            old(self).wf(),
        ensures
            final(self).wf(),
            final(self).same_line(old(self)),
            r == radix_prefix(old(self).input(), old(self).pos()).0,
            final(self).pos() == old(self).pos() + radix_prefix(
                old(self).input(),
                old(self).pos(),
            ).1,
    {
        let two = self.read_two();
        if let (Some('0'), Some('x')) = two {
            self.advance_n(2);
            return 16;
        }
        if let (Some('0'), Some(c)) = two {
            if is_digit_char(c) {
                self.advance();
                return 8;
            }
        }
        10
    }

    /// Read a signed integer literal with 64-bit wrapping arithmetic; at
    /// least one digit must follow the optional sign and radix prefix, or
    /// the literal is malformed.
    pub fn consume_i64(&mut self) -> (r: Result<i64, ParseError>)
        requires
            old(self).wf(),
        ensures
            final(self).wf(),
            final(self).same_line(old(self)),
            match spec_number(old(self).input(), old(self).pos()) {
                Ok((v, n)) => r is Ok && r->Ok_0 == v && final(self).pos() == old(self).pos() + n,
                Err(e) => r is Err && r->Err_0 == e,
            },
    {
        let ghost s = self.input();
        let negative = match self.read() {
            Some(c) => c == '-',
            None => false,
        };
        if negative {
            self.advance();
        }
        let radix = self.consume_optional_i64_prefix();
        let digits_start = self.index;
        let ghost d0 = self.pos();
        let mut r: i64 = 0;
        loop
            invariant_except_break
                self.wf(),
                self.input() == s,
                self.name() == old(self).name(),
                d0 <= self.pos() <= s.len(),
                digits_value(s, d0, radix, 0).0 == digits_value(s, self.pos(), radix, r).0,
                digits_value(s, d0, radix, 0).1 == (self.pos() - d0) + digits_value(
                    s,
                    self.pos(),
                    radix,
                    r,
                ).1,
            ensures
                self.wf(),
                self.input() == s,
                self.name() == old(self).name(),
                r == digits_value(s, d0, radix, 0).0,
                self.pos() == d0 + digits_value(s, d0, radix, 0).1,
            decreases s.len() - self.pos(),
        {
            match self.read() {
                None => {
                    break ;
                },
                Some(c) => {
                    match digit_of(c, radix) {
                        Some(v) => {
                            r = r.wrapping_mul(radix as i64).wrapping_add(v as i64);
                            self.advance();
                        },
                        None => {
                            break ;
                        },
                    }
                },
            }
        }
        if self.index == digits_start {
            return Err(ParseError::ExpectedNumber);
        }
        if negative {
            Ok(0i64.wrapping_sub(r))
        } else {
            Ok(r)
        }
    }

    /// Whether a literal `...` stands under the cursor.
    fn has_ellipsis(&self) -> (b: bool)
        requires
            self.wf(),
        ensures
            b == ellipsis_at(self.input(), self.pos()),
    {
        let ghost s = self.input();
        let ghost p = self.pos();
        let b = self.starts_with("...");
        proof {
            reveal_strlit("...");
            assert(b == ellipsis_at(s, p)) by {
                if p + "..."@.len() <= s.len() && s.subrange(p, p + "..."@.len()) == "..."@ {
                    assert(s[p] == s.subrange(p, p + 3)[0]);
                    assert(s[p + 1] == s.subrange(p, p + 3)[1]);
                    assert(s[p + 2] == s.subrange(p, p + 3)[2]);
                }
                if ellipsis_at(s, p) {
                    assert(s.subrange(p, p + 3) =~= "..."@);
                }
            }
        }
        b
    }

    /// Read a quoted string: its text with escapes kept verbatim, and whether
    /// a trailing `...` marks it truncated.
    pub fn consume_quoted(&mut self) -> (r: Result<(String, bool), ParseError>)
        requires
            old(self).wf(),
        ensures
            final(self).wf(),
            final(self).same_line(old(self)),
            match spec_quoted(old(self).input(), old(self).pos()) {
                Ok(((t, tr), next)) => r is Ok && r->Ok_0.0@ == t && r->Ok_0.1 == tr
                    && final(self).pos() == next,
                Err(e) => r is Err && r->Err_0 == e,
            },
    {
        let ghost s = self.input();
        match self.require('"') {
            Err(e) => {
                return Err(e);
            },
            Ok(()) => {},
        }
        let start = self.index;
        let ghost b0 = self.pos();
        let mut end: usize = 0;
        loop
            invariant_except_break
                self.wf(),
                self.input() == s,
                s == old(self).input(),
                self.name() == old(self).name(),
                b0 <= self.pos() <= s.len(),
                start == b0,
                b0 == old(self).pos() + 1,
                spec_require(s, old(self).pos(), '"') == Ok::<(), ParseError>(()),
                quoted_close(s, b0) == quoted_close(s, self.pos()),
            ensures
                self.wf(),
                self.input() == s,
                self.name() == old(self).name(),
                start == b0,
                quoted_close(s, b0) == Ok::<int, ParseError>(end as int),
                self.pos() == end + 1,
                b0 <= end,
            decreases s.len() - self.pos(),
        {
            let ghost p = self.pos();
            match self.read() {
                None => {
                    assert(quoted_close(s, p) == Err::<int, ParseError>(
                        ParseError::UnexpectedEnd,
                    ));
                    return Err(ParseError::UnexpectedEnd);
                },
                Some(c) => {
                    if c == '"' {
                        end = self.index;
                        self.advance();
                        assert(quoted_close(s, p) == Ok::<int, ParseError>(p));
                        break ;
                    } else if c == '\\' {
                        assert(quoted_close(s, p) == quoted_close(s, p + 2));
                        if self.length - self.index >= 2 {
                            self.advance_n(2);
                        } else {
                            // the escape runs off the line; the next read
                            // reports the unterminated string, as the spec
                            // does two characters further on
                            self.advance();
                            assert(quoted_close(s, p + 2) == Err::<int, ParseError>(
                                ParseError::UnexpectedEnd,
                            ));
                            assert(quoted_close(s, p + 1) == Err::<int, ParseError>(
                                ParseError::UnexpectedEnd,
                            ));
                        }
                    } else {
                        assert(quoted_close(s, p) == quoted_close(s, p + 1));
                        self.advance();
                    }
                },
            }
        }
        proof {
            lemma_quoted_close(s, b0);
        }
        let truncated = self.has_ellipsis();
        if truncated {
            self.advance_n(3);
        }
        let sub = self.text.substring_char(start, end);
        Ok((sub.to_owned(), truncated))
    }

    /// Read the remaining `|`-separated alternatives of a flag set whose
    /// first symbol `first` has already been read.
    #[verifier::loop_isolation(false)]
    pub fn consume_flagset(&mut self, first: String) -> (r: Result<Vec<FlagSetValue>, ParseError>)
        requires
            old(self).wf(),
        ensures
            final(self).wf(),
            final(self).same_line(old(self)),
            match spec_flagset(old(self).input(), old(self).pos(), first@) {
                Ok((fs, j)) => r is Ok && flags_model(r->Ok_0@) == fs && final(self).pos() == j,
                Err(e) => r is Err && r->Err_0 == e,
            },
    {
        let ghost s = self.input();
        let ghost f = first@;
        match self.require('|') {
            Err(e) => {
                return Err(e);
            },
            Ok(()) => {},
        }
        let mut items: Vec<FlagSetValue> = Vec::new();
        items.push(FlagSetValue::Symbol(first));
        proof {
            assert(flags_model(items@) =~= seq![FlagModel::Symbol(f)]);
        }
        loop
            invariant
                self.wf(),
                self.input() == s,
                self.name() == old(self).name(),
                0 <= self.pos() <= s.len(),
                spec_flag_items(s, old(self).pos() + 1, seq![FlagModel::Symbol(f)])
                    == spec_flag_items(s, self.pos(), flags_model(items@)),
            decreases s.len() - self.pos(),
        {
            let ghost p = self.pos();
            let ghost m = flags_model(items@);
            let c = match self.read() {
                None => {
                    // a `|` must be followed by an alternative
                    return Err(ParseError::UnexpectedEnd);
                },
                Some(c) => c,
            };
            if is_digit_char(c) {
                proof {
                    lemma_spec_number(s, p);
                }
                let bits = match self.consume_i64() {
                    Ok(x) => x,
                    Err(e) => {
                        proof {
                            assert(spec_flag_items(s, p, m) == Err::<
                                (Seq<FlagModel>, int),
                                ParseError,
                            >(e));
                        }
                        return Err(e);
                    },
                };
                proof {
                    lemma_flags_model_push(items@, FlagSetValue::Bits(bits));
                }
                items.push(FlagSetValue::Bits(bits));
            } else {
                proof {
                    lemma_spec_symbol(s, p);
                }
                let symbol = match self.consume_symbol() {
                    Ok(x) => x,
                    Err(e) => {
                        proof {
                            assert(spec_flag_items(s, p, m) == Err::<
                                (Seq<FlagModel>, int),
                                ParseError,
                            >(e));
                        }
                        return Err(e);
                    },
                };
                proof {
                    lemma_flags_model_push(items@, FlagSetValue::Symbol(symbol));
                }
                items.push(FlagSetValue::Symbol(symbol));
            }
            match self.read() {
                Some(a) => {
                    if a == '|' {
                        self.advance();
                    } else {
                        return Ok(items);
                    }
                },
                None => {
                    return Ok(items);
                },
            }
        }
    }
}

impl<'a> SyscallParser<'a> {
    /// Read one argument: `None` when the line ends or a `)` stands next.
    pub fn consume_arg(&mut self) -> (r: Result<Option<SyscallArg>, ParseError>)
        requires
            old(self).wf(),
        ensures
            final(self).wf(),
            final(self).same_line(old(self)),
            match spec_arg(old(self).input(), old(self).pos()) {
                Ok((m, j)) => r is Ok && opt_arg_model(r->Ok_0) == m && final(self).pos() == j,
                Err(e) => r is Err && r->Err_0 == e,
            },
        decreases remaining(self.input(), self.pos()), 1int,
    {
        let ghost s = self.input();
        let ghost i0 = self.pos();
        self.whitespace_comments();
        self.skip(',');
        self.whitespace_comments();
        let ghost p = self.pos();
        let c = match self.read() {
            None => {
                return Ok(None);
            },
            Some(c) => c,
        };
        if c == ')' {
            return Ok(None);
        }
        if is_symbol_start_char(c) {
            proof {
                lemma_spec_symbol(s, p);
            }
            let symbol = match self.consume_symbol() {
                Ok(x) => x,
                Err(e) => {
                    return Err(e);
                },
            };
            match self.read() {
                Some('|') => {
                    let flags = match self.consume_flagset(symbol) {
                        Ok(x) => x,
                        Err(er) => {
                            return Err(er);
                        },
                    };
                    Ok(Some(SyscallArg::positional(SyscallArgValue::FlagSet(flags))))
                },
                Some('=') => {
                    self.advance();
                    match self.consume_arg() {
                        Err(er) => Err(er),
                        Ok(None) => Err(ParseError::ExpectedArgAfterEq),
                        Ok(Some(arg)) => Ok(Some(SyscallArg::named(symbol, arg.value))),
                    }
                },
                Some('(') => {
                    self.advance();
                    let args = match self.consume_arg_list() {
                        Ok(x) => x,
                        Err(er) => {
                            return Err(er);
                        },
                    };
                    match self.require(')') {
                        Err(er) => {
                            return Err(er);
                        },
                        Ok(()) => {},
                    }
                    Ok(Some(SyscallArg::positional(SyscallArgValue::FunctionCall(symbol, args))))
                },
                _ => Ok(Some(SyscallArg::positional(SyscallArgValue::Symbol(symbol)))),
            }
        } else if is_digit_char(c) || c == '-' {
            let x = match self.consume_i64() {
                Ok(v) => v,
                Err(er) => {
                    return Err(er);
                },
            };
            match self.read() {
                Some('*') => {
                    self.advance();
                    let x2 = match self.consume_i64() {
                        Ok(v) => v,
                        Err(er) => {
                            return Err(er);
                        },
                    };
                    Ok(Some(SyscallArg::positional(SyscallArgValue::Product(x, x2))))
                },
                _ => Ok(Some(SyscallArg::positional(SyscallArgValue::Number(x)))),
            }
        } else if c == '"' {
            let q = match self.consume_quoted() {
                Ok(x) => x,
                Err(er) => {
                    return Err(er);
                },
            };
            Ok(
                Some(
                    SyscallArg::positional(
                        SyscallArgValue::Quoted { text: q.0, truncated: q.1 },
                    ),
                ),
            )
        } else if c == '{' {
            let st = match self.consume_struct() {
                Ok(x) => x,
                Err(er) => {
                    return Err(er);
                },
            };
            Ok(Some(SyscallArg::positional(SyscallArgValue::Struct(st))))
        } else if c == '[' {
            let arr = match self.consume_array() {
                Ok(x) => x,
                Err(er) => {
                    return Err(er);
                },
            };
            Ok(Some(SyscallArg::positional(SyscallArgValue::Array(arr))))
        } else {
            Err(ParseError::CouldNotParseArg)
        }
    }

    /// Read the arguments of an array or nested call, stopping before `]`,
    /// before the `)` left for the caller, or at the end of the line.
    #[verifier::loop_isolation(false)]
    pub fn consume_arg_list(&mut self) -> (r: Result<Vec<SyscallArg>, ParseError>)
        requires
            old(self).wf(),
        ensures
            final(self).wf(),
            final(self).same_line(old(self)),
            match spec_arg_list(old(self).input(), old(self).pos(), Seq::<ArgModel>::empty()) {
                Ok((ms, j)) => r is Ok && args_model(r->Ok_0@) == ms && final(self).pos() == j,
                Err(e) => r is Err && r->Err_0 == e,
            },
        decreases remaining(self.input(), self.pos()), 2int,
    {
        let ghost s = self.input();
        let ghost i0 = self.pos();
        let mut items: Vec<SyscallArg> = Vec::new();
        proof {
            assert(args_model(items@) =~= Seq::<ArgModel>::empty());
        }
        loop
            invariant
                self.wf(),
                self.input() == s,
                self.name() == old(self).name(),
                i0 <= self.pos() <= s.len(),
                spec_arg_list(s, i0, Seq::<ArgModel>::empty()) == spec_arg_list(
                    s,
                    self.pos(),
                    args_model(items@),
                ),
            decreases s.len() - self.pos(),
        {
            let ghost lp = self.pos();
            let ghost m = args_model(items@);
            self.skip(',');
            self.whitespace_comments();
            let ghost p = self.pos();
            let c = match self.read() {
                None => {
                    return Ok(items);
                },
                Some(c) => c,
            };
            if c == ']' {
                return Ok(items);
            }
            proof {
                lemma_spec_arg(s, p);
            }
            match self.consume_arg() {
                Err(e) => {
                    return Err(e);
                },
                Ok(None) => {
                    return Ok(items);
                },
                Ok(Some(a)) => {
                    proof {
                        lemma_args_model_push(items@, a);
                    }
                    items.push(a);
                },
            }
        }
    }

    /// Read a struct: `{`, comma-separated `name=value` fields, optionally a
    /// final `...` for fields the tracer elided, then `}`.
    #[verifier::loop_isolation(false)]
    pub fn consume_struct(&mut self) -> (r: Result<Vec<SyscallArg>, ParseError>)
        requires
            old(self).wf(),
        ensures
            final(self).wf(),
            final(self).same_line(old(self)),
            match spec_struct(old(self).input(), old(self).pos()) {
                Ok((ms, j)) => r is Ok && args_model(r->Ok_0@) == ms && final(self).pos() == j,
                Err(e) => r is Err && r->Err_0 == e,
            },
        decreases remaining(self.input(), self.pos()), 0int,
    {
        let ghost s = self.input();
        let ghost i0 = self.pos();
        match self.require('{') {
            Err(e) => {
                return Err(e);
            },
            Ok(()) => {},
        }
        let mut fields_vec: Vec<SyscallArg> = Vec::new();
        proof {
            assert(args_model(fields_vec@) =~= Seq::<ArgModel>::empty());
        }
        loop
            invariant
                self.wf(),
                self.input() == s,
                self.name() == old(self).name(),
                i0 + 1 <= self.pos() <= s.len(),
                spec_struct_fields(s, i0 + 1, Seq::<ArgModel>::empty()) == spec_struct_fields(
                    s,
                    self.pos(),
                    args_model(fields_vec@),
                ),
            decreases s.len() - self.pos(),
        {
            let ghost lp = self.pos();
            let ghost m = args_model(fields_vec@);
            self.skip(',');
            self.whitespace_comments();
            let ghost p = self.pos();
            if self.has_ellipsis() {
                self.advance_n(3);
                match self.require('}') {
                    Err(e) => {
                        return Err(e);
                    },
                    Ok(()) => {
                        return Ok(fields_vec);
                    },
                }
            }
            let c = match self.read() {
                None => {
                    match self.require('}') {
                        Err(e) => {
                            return Err(e);
                        },
                        Ok(()) => {
                            return Ok(fields_vec);
                        },
                    }
                },
                Some(c) => c,
            };
            if !is_symbol_start_char(c) {
                match self.require('}') {
                    Err(e) => {
                        return Err(e);
                    },
                    Ok(()) => {
                        return Ok(fields_vec);
                    },
                }
            }
            proof {
                lemma_spec_symbol(s, p);
            }
            let field = match self.consume_symbol() {
                Ok(x) => x,
                Err(e) => {
                    return Err(e);
                },
            };
            match self.require('=') {
                Err(e) => {
                    return Err(e);
                },
                Ok(()) => {},
            }
            proof {
                lemma_spec_arg(s, self.pos());
            }
            match self.consume_arg() {
                Err(e) => {
                    return Err(e);
                },
                Ok(None) => {
                    return Err(ParseError::StructFieldMissingValue);
                },
                Ok(Some(v)) => {
                    upsert_arg(&mut fields_vec, SyscallArg::named(field, v.value));
                },
            }
        }
    }

    /// Read an array: `[`, arguments, `]`.
    pub fn consume_array(&mut self) -> (r: Result<Vec<SyscallArg>, ParseError>)
        requires
            old(self).wf(),
        ensures
            final(self).wf(),
            final(self).same_line(old(self)),
            match spec_array(old(self).input(), old(self).pos()) {
                Ok((ms, j)) => r is Ok && args_model(r->Ok_0@) == ms && final(self).pos() == j,
                Err(e) => r is Err && r->Err_0 == e,
            },
        decreases remaining(self.input(), self.pos()), 0int,
    {
        match self.require('[') {
            Err(e) => {
                return Err(e);
            },
            Ok(()) => {},
        }
        let items = match self.consume_arg_list() {
            Ok(x) => x,
            Err(e) => {
                return Err(e);
            },
        };
        match self.require(']') {
            Err(e) => {
                return Err(e);
            },
            Ok(()) => {},
        }
        Ok(items)
    }

    /// Parse the whole line: `name(args) = value`.  Whatever follows the
    /// return value (errno names, comments) is left unread.  On failure the
    /// name read so far stays in the parser for the failure record.
    #[verifier::loop_isolation(false)]
    pub fn parse(&mut self) -> (r: Result<Syscall, ParseError>)
        requires
            old(self).wf(),
            old(self).pos() == 0,
            old(self).name() == Seq::<char>::empty(),
        ensures
            final(self).wf(),
            final(self).input() == old(self).input(),
            match spec_parse_line(old(self).input()) {
                Ok((nm, ams, ret)) => r is Ok && r->Ok_0@ == (SyscallModel {
                    name: nm,
                    args: ams,
                    return_value: ret,
                    error_details: None::<ErrorDetailsModel>,
                }) && final(self).name() == nm,
                Err((nm, e)) => r is Err && r->Err_0 == e && final(self).name() == nm,
            },
    {
        let ghost s = self.input();
        let name = match self.consume_symbol() {
            Ok(x) => x,
            Err(e) => {
                return Err(e);
            },
        };
        let ghost nmv = name@;
        self.current_name = name;
        match self.require('(') {
            Err(e) => {
                return Err(e);
            },
            Ok(()) => {},
        }
        let ghost a0 = self.pos();
        let mut args: Vec<SyscallArg> = Vec::new();
        proof {
            assert(args_model(args@) =~= Seq::<ArgModel>::empty());
        }
        loop
            invariant
                self.wf(),
                self.input() == s,
                self.name() == nmv,
                a0 <= self.pos() <= s.len(),
                spec_args_top(s, a0, Seq::<ArgModel>::empty()) == spec_args_top(
                    s,
                    self.pos(),
                    args_model(args@),
                ),
            decreases s.len() - self.pos(),
        {
            let ghost lp = self.pos();
            proof {
                lemma_spec_arg(s, lp);
            }
            match self.consume_arg() {
                Err(e) => {
                    return Err(e);
                },
                Ok(None) => {
                    break ;
                },
                Ok(Some(arg)) => {
                    proof {
                        lemma_args_model_push(args@, arg);
                    }
                    args.push(arg);
                },
            }
        }
        match self.require(')') {
            Err(e) => {
                return Err(e);
            },
            Ok(()) => {},
        }
        self.whitespace_comments();
        match self.require('=') {
            Err(e) => {
                return Err(e);
            },
            Ok(()) => {},
        }
        self.whitespace_comments();
        let return_value = match self.consume_i64() {
            Ok(x) => x,
            Err(e) => {
                return Err(e);
            },
        };
        Ok(
            Syscall {
                name: self.current_name.clone(),
                args,
                return_value,
                error_details: None,
            },
        )
    }
}

/// Parse one line of tracer output into a call record.  This is total: a
/// malformed line yields a record whose `error_details` holds the failure and
/// the line's full text, with the call name read so far and no arguments.
pub fn parse_syscall(text: &str) -> (r: Syscall)
    ensures
        r@ == spec_parse_syscall(text@),
{
    let mut parser = SyscallParser::new(text);
    match parser.parse() {
        Ok(sc) => sc,
        Err(e) => {
            let msg = e.message_text();
            let out = Syscall {
                name: parser.current_name.clone(),
                args: Vec::new(),
                return_value: 0,
                error_details: Some(
                    SyscallErrorDetails { message: msg, fulltext: text.to_owned() },
                ),
            };
            proof {
                assert(args_model(out.args@) =~= Seq::<ArgModel>::empty());
            }
            out
        },
    }
}

/// Add one parsed field to a struct's field list: the first entry with the
/// same name takes the new value, a fresh name goes to the end.
#[verifier::loop_isolation(false)]
fn upsert_arg(fields: &mut Vec<SyscallArg>, entry: SyscallArg)
    ensures
        args_model(final(fields)@) == upsert_field(args_model(old(fields)@), entry@),
{
    let ghost m0 = args_model(fields@);
    proof {
        lemma_args_model_index(fields@);
        lemma_field_index(m0, entry@.name);
    }
    let mut k: usize = 0;
    loop
        invariant
            fields@ == old(fields)@,
            k <= fields.len(),
            forall|j: int| 0 <= j < k ==> m0[j].name != entry@.name,
        decreases fields.len() - k,
    {
        proof {
            lemma_field_index(m0, entry@.name);
        }
        if k >= fields.len() {
            proof {
                assert(m0 == args_model(fields@));
                assert(m0.len() == fields@.len());
                assert(field_index(m0, entry@.name) == -1);
                assert(upsert_field(m0, entry@) == m0.push(entry@));
                lemma_args_model_push(fields@, entry);
            }
            fields.push(entry);
            proof {
                assert(arg_model(entry) == entry@);
                assert(args_model(fields@) == m0.push(entry@));
                assert(args_model(fields@) == upsert_field(args_model(old(fields)@), entry@));
            }
            return ;
        }
        if fields[k].name == entry.name {
            proof {
                assert(arg_model(fields@[k as int]).name == fields@[k as int].name@);
                assert(arg_model(entry).name == entry.name@);
                assert(m0[k as int] == arg_model(fields@[k as int]));
                assert(m0[k as int].name == entry@.name);
                assert(field_index(m0, entry@.name) == k as int);
                assert(upsert_field(m0, entry@) == m0.update(k as int, entry@));
                lemma_args_model_update(fields@, k as int, entry);
            }
            fields.set(k, entry);
            proof {
                assert(arg_model(entry) == entry@);
                assert(args_model(fields@) == m0.update(k as int, entry@));
            }
            return ;
        }
        proof {
            assert(arg_model(fields@[k as int]).name == fields@[k as int].name@);
            assert(arg_model(entry).name == entry.name@);
        }
        k = k + 1;
    }
}

} // verus!
