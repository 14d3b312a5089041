//! Bounds and progress facts about the grammar's spec functions: every scan
//! stays inside the line, and a parsed value consumes at least one character.
//! The executable parser's loop invariants and termination rest on these.
use vstd::prelude::*;

use crate::grammar::char_at;
use crate::grammar::comment_body_count;
use crate::grammar::comment_count;
use crate::grammar::digit_value;
use crate::grammar::digits_value;
use crate::grammar::ellipsis_at;
use crate::grammar::field_index;
use crate::grammar::is_digit;
use crate::grammar::is_space;
use crate::grammar::is_symbol_continue;
use crate::grammar::is_symbol_start;
use crate::grammar::quoted_close;
use crate::grammar::radix_prefix;
use crate::grammar::remaining;
use crate::grammar::spaces_count;
use crate::grammar::spec_arg;
use crate::grammar::spec_arg_list;
use crate::grammar::spec_args_top;
use crate::grammar::spec_array;
use crate::grammar::spec_flag_items;
use crate::grammar::spec_flagset;
use crate::grammar::spec_number;
use crate::grammar::spec_quoted;
use crate::grammar::spec_require;
use crate::grammar::spec_struct;
use crate::grammar::spec_struct_fields;
use crate::grammar::spec_symbol;
use crate::grammar::symbol_tail_count;
use crate::grammar::trivia_count;
use crate::grammar::upsert_field;
use crate::syscall::ArgModel;
use crate::syscall::FlagModel;

verus! {

pub proof fn lemma_spaces_count(s: Seq<char>, i: int)
    requires
        0 <= i <= s.len(),
    ensures
        i + spaces_count(s, i) <= s.len(),
    decreases remaining(s, i),
{
    if i < s.len() && is_space(s[i]) {
        lemma_spaces_count(s, i + 1);
    }
}

pub proof fn lemma_comment_body_count(s: Seq<char>, i: int)
    requires
        0 <= i <= s.len(),
    ensures
        i + comment_body_count(s, i) <= s.len(),
    decreases remaining(s, i),
{
    if i < s.len() && !(s[i] == '*' && char_at(s, i + 1) == Some('/')) {
        lemma_comment_body_count(s, i + 1);
    }
}

pub proof fn lemma_comment_count(s: Seq<char>, i: int)
    requires
        0 <= i <= s.len(),
    ensures
        i + comment_count(s, i) <= s.len(),
{
    if char_at(s, i) == Some('/') && char_at(s, i + 1) == Some('*') {
        lemma_comment_body_count(s, i + 2);
    }
}

pub proof fn lemma_trivia_count(s: Seq<char>, i: int)
    requires
        0 <= i <= s.len(),
    ensures
        i + trivia_count(s, i) <= s.len(),
    decreases remaining(s, i),
{
    lemma_spaces_count(s, i);
    let a = spaces_count(s, i);
    lemma_comment_count(s, i + a);
    let b = comment_count(s, i + a);
    if 0 <= i < s.len() && a + b > 0 {
        lemma_trivia_count(s, i + a + b);
    }
}

pub proof fn lemma_symbol_tail_count(s: Seq<char>, i: int)
    requires
        0 <= i <= s.len(),
    ensures
        i + symbol_tail_count(s, i) <= s.len(),
    decreases remaining(s, i),
{
    if i < s.len() && is_symbol_continue(s[i]) {
        lemma_symbol_tail_count(s, i + 1);
    }
}

pub proof fn lemma_spec_symbol(s: Seq<char>, i: int)
    requires
        0 <= i <= s.len(),
    ensures
        match spec_symbol(s, i) {
            Ok((t, n)) => i + n <= s.len() && t.len() == n && n >= 1,
            Err(_) => true,
        },
{
    if i < s.len() && is_symbol_start(s[i]) {
        lemma_symbol_tail_count(s, i + 1);
    }
}

pub proof fn lemma_digits_value(s: Seq<char>, i: int, radix: u32, acc: i64)
    requires
        0 <= i <= s.len(),
    ensures
        i + digits_value(s, i, radix, acc).1 <= s.len(),
    decreases remaining(s, i),
{
    if i < s.len() && digit_value(s[i], radix) is Some {
        let v = digit_value(s[i], radix)->Some_0;
        let step = vstd::wrapping::i64_specs::wrapping_add(
            vstd::wrapping::i64_specs::wrapping_mul(acc, radix as i64),
            v as i64,
        );
        lemma_digits_value(s, i + 1, radix, step);
    }
}

pub proof fn lemma_spec_number(s: Seq<char>, i: int)
    requires
        0 <= i <= s.len(),
    ensures
        match spec_number(s, i) {
            Ok((_, n)) => i + n <= s.len() && n >= 1,
            Err(_) => true,
        },
{
    let neg = char_at(s, i) == Some('-');
    let i1 = if neg {
        i + 1
    } else {
        i
    };
    let (radix, n1) = radix_prefix(s, i1);
    lemma_digits_value(s, i1 + n1, radix, 0);
}

pub proof fn lemma_quoted_close(s: Seq<char>, j: int)
    requires
        0 <= j,
    ensures
        match quoted_close(s, j) {
            Ok(end) => j <= end < s.len() && s[end] == '"',
            Err(_) => true,
        },
    decreases remaining(s, j),
{
    match char_at(s, j) {
        None => {},
        Some(c) => {
            if c == '"' {
            } else if c == '\\' {
                lemma_quoted_close(s, j + 2);
            } else {
                lemma_quoted_close(s, j + 1);
            }
        },
    }
}

pub proof fn lemma_spec_quoted(s: Seq<char>, i: int)
    requires
        0 <= i <= s.len(),
    ensures
        match spec_quoted(s, i) {
            Ok((_, next)) => i + 2 <= next <= s.len(),
            Err(_) => true,
        },
{
    if char_at(s, i) == Some('"') {
        lemma_quoted_close(s, i + 1);
    }
}

pub proof fn lemma_spec_flag_items(s: Seq<char>, i: int, acc: Seq<FlagModel>)
    requires
        0 <= i <= s.len(),
    ensures
        match spec_flag_items(s, i, acc) {
            Ok((_, j)) => i <= j <= s.len(),
            Err(_) => true,
        },
    decreases remaining(s, i),
{
    match char_at(s, i) {
        None => {},
        Some(c) => {
            if is_digit(c) {
                lemma_spec_number(s, i);
                match spec_number(s, i) {
                    Err(_) => {},
                    Ok((v, n)) => {
                        let j = i + n;
                        if char_at(s, j) == Some('|') {
                            lemma_spec_flag_items(s, j + 1, acc.push(FlagModel::Bits(v)));
                        }
                    },
                }
            } else {
                lemma_spec_symbol(s, i);
                match spec_symbol(s, i) {
                    Err(_) => {},
                    Ok((t, n)) => {
                        let j = i + n;
                        if char_at(s, j) == Some('|') {
                            lemma_spec_flag_items(s, j + 1, acc.push(FlagModel::Symbol(t)));
                        }
                    },
                }
            }
        },
    }
}

pub proof fn lemma_spec_flagset(s: Seq<char>, i: int, first: Seq<char>)
    requires
        0 <= i <= s.len(),
    ensures
        match spec_flagset(s, i, first) {
            Ok((_, j)) => i < j <= s.len(),
            Err(_) => true,
        },
{
    if char_at(s, i) == Some('|') {
        lemma_spec_flag_items(s, i + 1, seq![FlagModel::Symbol(first)]);
    }
}

pub proof fn lemma_spec_arg(s: Seq<char>, i: int)
    requires
        0 <= i <= s.len(),
    ensures
        match spec_arg(s, i) {
            Ok((opt, j)) => i <= j <= s.len() && (opt is Some ==> i < j),
            Err(_) => true,
        },
    decreases remaining(s, i), 1int,
{
    lemma_trivia_count(s, i);
    let p0 = i + trivia_count(s, i);
    let p1 = if char_at(s, p0) == Some(',') {
        p0 + 1
    } else {
        p0
    };
    lemma_trivia_count(s, p1);
    let p = p1 + trivia_count(s, p1);
    match char_at(s, p) {
        None => {},
        Some(c) => {
            if c == ')' {
            } else if is_symbol_start(c) {
                lemma_spec_symbol(s, p);
                match spec_symbol(s, p) {
                    Err(_) => {},
                    Ok((sym, n)) => {
                        let e = p + n;
                        if char_at(s, e) == Some('|') {
                            lemma_spec_flagset(s, e, sym);
                        } else if char_at(s, e) == Some('=') {
                            lemma_spec_arg(s, e + 1);
                        } else if char_at(s, e) == Some('(') {
                            lemma_spec_arg_list(s, e + 1, Seq::<ArgModel>::empty());
                        }
                    },
                }
            } else if is_digit(c) || c == '-' {
                lemma_spec_number(s, p);
                match spec_number(s, p) {
                    Err(_) => {},
                    Ok((_, n)) => {
                        let j = p + n;
                        if char_at(s, j) == Some('*') {
                            lemma_spec_number(s, j + 1);
                        }
                    },
                }
            } else if c == '"' {
                lemma_spec_quoted(s, p);
            } else if c == '{' {
                lemma_spec_struct(s, p);
            } else if c == '[' {
                lemma_spec_array(s, p);
            }
        },
    }
}

pub proof fn lemma_spec_arg_list(s: Seq<char>, i: int, acc: Seq<ArgModel>)
    requires
        0 <= i <= s.len(),
    ensures
        match spec_arg_list(s, i, acc) {
            Ok((_, j)) => i <= j <= s.len(),
            Err(_) => true,
        },
    decreases remaining(s, i), 2int,
{
    let p0 = if char_at(s, i) == Some(',') {
        i + 1
    } else {
        i
    };
    lemma_trivia_count(s, p0);
    let p = p0 + trivia_count(s, p0);
    match char_at(s, p) {
        None => {},
        Some(c) => {
            if c != ']' {
                lemma_spec_arg(s, p);
                match spec_arg(s, p) {
                    Err(_) => {},
                    Ok((None, _)) => {},
                    Ok((Some(a), j)) => {
                        if i < j {
                            lemma_spec_arg_list(s, j, acc.push(a));
                        }
                    },
                }
            }
        },
    }
}

pub proof fn lemma_spec_struct_fields(s: Seq<char>, i: int, acc: Seq<ArgModel>)
    requires
        0 <= i <= s.len(),
    ensures
        match spec_struct_fields(s, i, acc) {
            Ok((_, j)) => i <= j <= s.len(),
            Err(_) => true,
        },
    decreases remaining(s, i), 2int,
{
    let p0 = if char_at(s, i) == Some(',') {
        i + 1
    } else {
        i
    };
    lemma_trivia_count(s, p0);
    let p = p0 + trivia_count(s, p0);
    if ellipsis_at(s, p) {
    } else {
        match char_at(s, p) {
            None => {},
            Some(c) => {
                if is_symbol_start(c) {
                    lemma_spec_symbol(s, p);
                    match spec_symbol(s, p) {
                        Err(_) => {},
                        Ok((field, n)) => {
                            let e = p + n;
                            match spec_require(s, e, '=') {
                                Err(_) => {},
                                Ok(_) => {
                                    lemma_spec_arg(s, e + 1);
                                    match spec_arg(s, e + 1) {
                                        Err(_) => {},
                                        Ok((None, _)) => {},
                                        Ok((Some(v), j)) => {
                                            let acc2 = upsert_field(
                                                acc,
                                                ArgModel { name: field, value: v.value },
                                            );
                                            if i < j {
                                                lemma_spec_struct_fields(s, j, acc2);
                                            }
                                        },
                                    }
                                },
                            }
                        },
                    }
                }
            },
        }
    }
}

pub proof fn lemma_spec_struct(s: Seq<char>, i: int)
    requires
        0 <= i <= s.len(),
    ensures
        match spec_struct(s, i) {
            Ok((_, j)) => i < j <= s.len(),
            Err(_) => true,
        },
    decreases remaining(s, i), 0int,
{
    if char_at(s, i) == Some('{') {
        lemma_spec_struct_fields(s, i + 1, Seq::<ArgModel>::empty());
    }
}

pub proof fn lemma_spec_array(s: Seq<char>, i: int)
    requires
        0 <= i <= s.len(),
    ensures
        match spec_array(s, i) {
            Ok((_, j)) => i < j <= s.len(),
            Err(_) => true,
        },
    decreases remaining(s, i), 0int,
{
    if char_at(s, i) == Some('[') {
        lemma_spec_arg_list(s, i + 1, Seq::<ArgModel>::empty());
    }
}

/// `field_index` names the first position with the given field name, and
/// `-1` means the name is absent.
pub proof fn lemma_field_index(fields: Seq<ArgModel>, name: Seq<char>)
    ensures
        ({
            let j = field_index(fields, name);
            &&& j == -1 || 0 <= j < fields.len()
            &&& j >= 0 ==> fields[j].name == name && (forall|k: int|
                0 <= k < j ==> fields[k].name != name)
            &&& j == -1 ==> (forall|k: int| 0 <= k < fields.len() ==> fields[k].name != name)
        }),
    decreases fields.len(),
{
    if fields.len() > 0 && fields[0].name != name {
        lemma_field_index(fields.drop_first(), name);
        assert forall|k: int| 1 <= k < fields.len() implies fields[k] == fields.drop_first()[k
            - 1] by {
            assert(fields.drop_first()[k - 1] == fields[k]);
        }
    }
}


} // verus!
