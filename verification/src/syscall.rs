//! The data model for one traced system call: the record a parsed line turns
//! into, the tagged union of argument values, and the mathematical models
//! (over `Seq<char>`) that the contracts speak of.
use vstd::prelude::*;

verus! {

broadcast use vstd::seq::group_seq_axioms, vstd::std_specs::vec::group_vec_axioms;

/// One message of the producer/consumer stream: a parsed call record.
pub enum Message {
    Syscall(Syscall),
}

/// The structured result of parsing one trace line.  Either the grammar was
/// consumed up to the return value (`error_details` is `None`) or parsing
/// stopped early (`error_details` is `Some`, `args` is empty, `name` holds the
/// prefix that was read, and `return_value` is zero).
pub struct Syscall {
    pub name: String,
    pub args: Vec<SyscallArg>,
    pub return_value: i64,
    pub error_details: Option<SyscallErrorDetails>,
}

/// Why and where a line failed to parse; the line itself is kept verbatim.
pub struct SyscallErrorDetails {
    pub message: String,
    pub fulltext: String,
}

/// One argument of a call: positional when `name` is empty, named otherwise.
#[derive(Debug)]
pub struct SyscallArg {
    pub name: String,
    pub value: SyscallArgValue,
}

/// A parsed argument value.
#[derive(Debug)]
pub enum SyscallArgValue {
    // backslash escapes in `text` are unresolved, i.e. you will see a
    // backslash followed by an 'n' rather than a newline
    Quoted { text: String, truncated: bool },
    Symbol(String),
    FlagSet(Vec<FlagSetValue>),
    Number(i64),
    Product(i64, i64),
    Array(Vec<SyscallArg>),
    /// Struct fields in textual order; every entry carries its field name and
    /// the names are unique (a repeated field keeps its first position and the
    /// last value).
    Struct(Vec<SyscallArg>),
    FunctionCall(String, Vec<SyscallArg>),
}

/// One alternative of a `|`-joined flag set.
#[derive(Debug, Clone)]
pub enum FlagSetValue {
    Symbol(String),
    Bits(i64),
}

/// Mathematical model of a `SyscallArg`.
pub struct ArgModel {
    pub name: Seq<char>,
    pub value: ValueModel,
}

/// Mathematical model of a `SyscallArgValue`.
pub enum ValueModel {
    Quoted { text: Seq<char>, truncated: bool },
    Symbol(Seq<char>),
    FlagSet(Seq<FlagModel>),
    Number(i64),
    Product(i64, i64),
    Array(Seq<ArgModel>),
    Struct(Seq<ArgModel>),
    FunctionCall(Seq<char>, Seq<ArgModel>),
}

/// Mathematical model of a `FlagSetValue`.
pub enum FlagModel {
    Symbol(Seq<char>),
    Bits(i64),
}

/// Mathematical model of a `SyscallErrorDetails`.
pub struct ErrorDetailsModel {
    pub message: Seq<char>,
    pub fulltext: Seq<char>,
}

/// Mathematical model of a `Syscall`.
pub struct SyscallModel {
    pub name: Seq<char>,
    pub args: Seq<ArgModel>,
    pub return_value: i64,
    pub error_details: Option<ErrorDetailsModel>,
}

/// Mathematical model of a `Message`.
pub enum MessageModel {
    Syscall(SyscallModel),
}

pub open spec fn flag_model(f: FlagSetValue) -> FlagModel {
    match f {
        FlagSetValue::Symbol(s) => FlagModel::Symbol(s@),
        FlagSetValue::Bits(x) => FlagModel::Bits(x),
    }
}

pub open spec fn flags_model(s: Seq<FlagSetValue>) -> Seq<FlagModel> {
    Seq::new(s.len(), |i: int| flag_model(s[i]))
}

pub open spec fn arg_model(a: SyscallArg) -> ArgModel
    decreases a,
{
    ArgModel { name: a.name@, value: value_model(a.value) }
}

pub open spec fn args_model(s: Seq<SyscallArg>) -> Seq<ArgModel>
    decreases s,
{
    if s.len() == 0 {
        Seq::empty()
    } else {
        args_model(s.drop_last()).push(arg_model(s.last()))
    }
}

pub open spec fn value_model(v: SyscallArgValue) -> ValueModel
    decreases v,
{
    match v {
        SyscallArgValue::Quoted { text, truncated } => ValueModel::Quoted {
            text: text@,
            truncated,
        },
        SyscallArgValue::Symbol(s) => ValueModel::Symbol(s@),
        SyscallArgValue::FlagSet(fs) => ValueModel::FlagSet(flags_model(fs@)),
        SyscallArgValue::Number(x) => ValueModel::Number(x),
        SyscallArgValue::Product(x, y) => ValueModel::Product(x, y),
        SyscallArgValue::Array(vs) => ValueModel::Array(args_model(vs@)),
        SyscallArgValue::Struct(vs) => ValueModel::Struct(args_model(vs@)),
        SyscallArgValue::FunctionCall(name, vs) => ValueModel::FunctionCall(
            name@,
            args_model(vs@),
        ),
    }
}

/// The model of an optional argument.
pub open spec fn opt_arg_model(o: Option<SyscallArg>) -> Option<ArgModel> {
    match o {
        Some(a) => Some(arg_model(a)),
        None => None,
    }
}

impl View for SyscallArg {
    type V = ArgModel;

    open spec fn view(&self) -> ArgModel {
        arg_model(*self)
    }
}

impl View for SyscallArgValue {
    type V = ValueModel;

    open spec fn view(&self) -> ValueModel {
        value_model(*self)
    }
}

impl View for FlagSetValue {
    type V = FlagModel;

    open spec fn view(&self) -> FlagModel {
        flag_model(*self)
    }
}

impl View for SyscallErrorDetails {
    type V = ErrorDetailsModel;

    open spec fn view(&self) -> ErrorDetailsModel {
        ErrorDetailsModel { message: self.message@, fulltext: self.fulltext@ }
    }
}

impl View for Syscall {
    type V = SyscallModel;

    open spec fn view(&self) -> SyscallModel {
        SyscallModel {
            name: self.name@,
            args: args_model(self.args@),
            return_value: self.return_value,
            error_details: match self.error_details {
                Option::None => Option::None,
                Option::Some(d) => Option::Some(d@),
            },
        }
    }
}

impl View for Message {
    type V = MessageModel;

    open spec fn view(&self) -> MessageModel {
        match self {
            Message::Syscall(sc) => MessageModel::Syscall(sc@),
        }
    }
}

/// `args_model` is the element-wise model of a sequence of arguments.
pub proof fn lemma_args_model_index(s: Seq<SyscallArg>)
    ensures
        args_model(s).len() == s.len(),
        forall|i: int| 0 <= i < s.len() ==> args_model(s)[i] == arg_model(s[i]),
    decreases s,
{
    if s.len() > 0 {
        lemma_args_model_index(s.drop_last());
    }
}

/// Pushing an argument extends the model by the argument's model.
pub proof fn lemma_args_model_push(s: Seq<SyscallArg>, a: SyscallArg)
    ensures
        args_model(s.push(a)) == args_model(s).push(arg_model(a)),
{
    assert(s.push(a).drop_last() =~= s);
    assert(s.push(a).last() == a);
}

/// Updating one argument updates its model pointwise.
pub proof fn lemma_args_model_update(s: Seq<SyscallArg>, k: int, a: SyscallArg)
    requires
        0 <= k < s.len(),
    ensures
        args_model(s.update(k, a)) == args_model(s).update(k, arg_model(a)),
{
    lemma_args_model_index(s);
    lemma_args_model_index(s.update(k, a));
    assert(args_model(s.update(k, a)) =~= args_model(s).update(k, arg_model(a)));
}

/// Pushing a flag extends the model by the flag's model.
pub proof fn lemma_flags_model_push(s: Seq<FlagSetValue>, x: FlagSetValue)
    ensures
        flags_model(s.push(x)) == flags_model(s).push(flag_model(x)),
{
    assert(flags_model(s.push(x)) =~= flags_model(s).push(flag_model(x)));
}

impl SyscallArg {
    /// An argument without a field name.
    pub fn positional(value: SyscallArgValue) -> (r: Self)
        ensures
            r@ == (ArgModel { name: Seq::<char>::empty(), value: value@ }),
    {
        Self { name: String::new(), value }
    }

    /// An argument annotated with a field name.
    pub fn named(name: String, value: SyscallArgValue) -> (r: Self)
        ensures
            r@ == (ArgModel { name: name@, value: value@ }),
    {
        Self { name, value }
    }
}

} // verus!
