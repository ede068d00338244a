//! Commands: a typed argument signature, a description, and a handler.
//!
//! A command declares an ordered list of argument type tags. Before the
//! handler ever runs, the validator checks the raw argument strings against
//! that list: the arity first, then each position in order, stopping at the
//! first failure. Handlers report success with a [`CommandStatus`], a
//! recoverable failure, or a [`CriticalError`] that must abort the whole
//! session.

use vstd::prelude::*;
use vstd::string::StringExecFns;

use crate::parse::{i32_literal_value, is_f32_literal, is_f32_text, parse_i32};
use crate::text::{dec_digits, u64_to_dec, views_of};

verus! {

// ---------------------------------------------------------------------------
// Argument types
// ---------------------------------------------------------------------------

/// The type of one command argument.
#[derive(Clone, Copy, Debug, PartialEq, Eq, Structural)]
pub enum TypeTag {
    /// A signed 32-bit integer.
    I32,
    /// A 32-bit floating-point number (validated as text; the engine passes
    /// the characters through).
    F32,
    /// Free text, passed through as tokenized.
    Str,
}

/// The label a type tag shows in signatures.
pub open spec fn tag_label(t: TypeTag) -> Seq<char> {
    match t {
        TypeTag::I32 => "i32"@,
        TypeTag::F32 => "f32"@,
        TypeTag::Str => "String"@,
    }
}

/// The diagnostic cause reported when a value does not parse as `t`.
pub open spec fn tag_cause(t: TypeTag) -> Seq<char> {
    match t {
        TypeTag::I32 => "invalid i32 literal"@,
        TypeTag::F32 => "invalid f32 literal"@,
        TypeTag::Str => Seq::<char>::empty(),
    }
}

/// One declared argument: an optional name and a type tag.
pub struct ArgInfo {
    /// Name shown in the usage line, if any.
    pub name: Option<String>,
    /// The argument's type.
    pub tag: TypeTag,
}

/// The signature entry rendered for one argument: `name:type` (the name may
/// be empty).
pub open spec fn arg_label(a: ArgInfo) -> Seq<char> {
    (match a.name {
        Some(n) => n@,
        None => Seq::<char>::empty(),
    }) + ":"@ + tag_label(a.tag)
}

/// The type tags of a declared argument list.
pub open spec fn tags_of(args: Seq<ArgInfo>) -> Seq<TypeTag> {
    args.map_values(|a: ArgInfo| a.tag)
}

// ---------------------------------------------------------------------------
// Statuses and errors
// ---------------------------------------------------------------------------

/// Return status of a successfully executed command.
#[derive(Debug)]
pub enum CommandStatus {
    /// The session should continue.
    Done,
    /// The session should end normally.
    Quit,
}

/// An error a handler marks as non-recoverable: the session loop does not
/// report it to the user but propagates it to its own caller, ending the
/// whole run.
#[derive(Debug)]
pub enum CriticalError {
    /// The wrapped cause.
    Critical(String),
}

impl CriticalError {
    /// The wrapped cause.
    pub fn message(&self) -> (r: &str)
        ensures
            r@ == critical_message(self),
    {
        match self {
            CriticalError::Critical(m) => m.as_str(),
        }
    }
}

/// The cause held by a critical error.
pub open spec fn critical_message(e: &CriticalError) -> Seq<char> {
    match e {
        CriticalError::Critical(m) => m@,
    }
}

/// A failure reported by a handler.
#[derive(Debug)]
pub enum HandlerError {
    /// Reported to the user; the session continues.
    Recoverable(String),
    /// Propagated out of the session loop.
    Critical(CriticalError),
}

/// Wrap the error of a result in [`CriticalError`], leaving a success
/// untouched.
pub trait Critical<T> {
    /// Mark the contained error, if any, as critical.
    fn into_critical(self) -> Result<T, CriticalError>;
}

impl<T> Critical<T> for Result<T, String> {
    fn into_critical(self) -> (r: Result<T, CriticalError>)
        ensures
            self matches Ok(v) ==> r matches Ok(w) && w == v,
            self matches Err(m) ==> r matches Err(CriticalError::Critical(w)) && w == m,
    {
        match self {
            Ok(v) => Ok(v),
            Err(m) => Err(CriticalError::Critical(m)),
        }
    }
}

/// Why a raw argument list was rejected.
#[derive(Debug)]
pub enum ArgsError {
    /// The list is the wrong length.
    WrongNumberOfArguments {
        /// How many arguments were given.
        got: usize,
        /// How many the command declares.
        expected: usize,
    },
    /// An argument does not parse as its declared type.
    WrongArgumentValue {
        /// The position of the offending argument, counted from zero.
        position: usize,
        /// The offending raw text.
        argument: String,
        /// Why it was rejected.
        error: String,
    },
}

/// The user-visible description of an argument error.
pub open spec fn args_error_message(e: ArgsError) -> Seq<char> {
    match e {
        ArgsError::WrongNumberOfArguments { got, expected } => "wrong number of arguments: got "@
            + dec_digits(got as int) + ", expected "@ + dec_digits(expected as int),
        ArgsError::WrongArgumentValue { argument, error, .. } => {
            "failed to parse argument value '"@ + argument@ + "': "@ + error@
        },
    }
}

impl ArgsError {
    /// Render the user-visible description of this error.
    pub fn message(&self) -> (r: String)
        ensures
            r@ == args_error_message(*self),
    {
        match self {
            ArgsError::WrongNumberOfArguments { got, expected } => {
                let mut s = "wrong number of arguments: got ".to_owned();
                let g = u64_to_dec(*got as u64);
                s.append(g.as_str());
                s.append(", expected ");
                let e = u64_to_dec(*expected as u64);
                s.append(e.as_str());
                s
            },
            ArgsError::WrongArgumentValue { argument, error, .. } => {
                let mut s = "failed to parse argument value '".to_owned();
                s.append(argument.as_str());
                s.append("': ");
                s.append(error.as_str());
                s
            },
        }
    }
}

/// Why a command invocation failed.
#[derive(Debug)]
pub enum CommandError {
    /// The arguments were rejected before the handler ran.
    Args(ArgsError),
    /// The handler failed recoverably.
    Recoverable(String),
    /// The handler failed critically.
    Critical(CriticalError),
}

// ---------------------------------------------------------------------------
// Validation
// ---------------------------------------------------------------------------

/// The raw text `s` is a well-formed value of type `t`.
pub open spec fn arg_conforms(t: TypeTag, s: Seq<char>) -> bool {
    match t {
        TypeTag::I32 => i32_literal_value(s) is Some,
        TypeTag::F32 => is_f32_literal(s),
        TypeTag::Str => true,
    }
}

/// `vals` has the arity of `tags` and every position conforms to its tag.
pub open spec fn args_conform(tags: Seq<TypeTag>, vals: Seq<Seq<char>>) -> bool {
    tags.len() == vals.len() && forall|i: int|
        0 <= i < tags.len() ==> arg_conforms(tags[i], #[trigger] vals[i])
}

/// The first position at or after `i` whose value does not conform
/// (`tags.len()` if all conform).
pub open spec fn first_failing(tags: Seq<TypeTag>, vals: Seq<Seq<char>>, i: int) -> int
    decreases tags.len() - i when i <= tags.len()
{
    if 0 <= i < tags.len() && !(i < vals.len() && arg_conforms(tags[i], vals[i])) {
        i
    } else if 0 <= i < tags.len() {
        first_failing(tags, vals, i + 1)
    } else {
        i
    }
}

/// The error `e` is exactly the error the validator reports for `vals`
/// against `tags`: an arity error whenever the lengths differ, else the
/// value error of the first non-conforming position.
pub open spec fn validate_error_matches(
    tags: Seq<TypeTag>,
    vals: Seq<Seq<char>>,
    e: ArgsError,
) -> bool {
    if tags.len() != vals.len() {
        e matches ArgsError::WrongNumberOfArguments { got, expected } && got == vals.len()
            && expected == tags.len()
    } else {
        let i = first_failing(tags, vals, 0);
        &&& 0 <= i < tags.len()
        &&& e matches ArgsError::WrongArgumentValue { position, argument, error } && position == i
            && argument@ == vals[i] && error@ == tag_cause(tags[i])
    }
}

proof fn lemma_first_failing_from(tags: Seq<TypeTag>, vals: Seq<Seq<char>>, j: int, i: int)
    requires
        tags.len() == vals.len(),
        0 <= j <= i < tags.len(),
        forall|k: int| j <= k < i ==> arg_conforms(tags[k], #[trigger] vals[k]),
        !arg_conforms(tags[i], vals[i]),
    ensures
        first_failing(tags, vals, j) == i,
    decreases i - j,
{
    if j < i {
        lemma_first_failing_from(tags, vals, j + 1, i);
    }
}

/// Decide whether the raw text `s` conforms to type `t`.
pub fn check_arg(t: TypeTag, s: &str) -> (r: bool)
    ensures
        r == arg_conforms(t, s@),
{
    match t {
        TypeTag::I32 => parse_i32(s).is_some(),
        TypeTag::F32 => is_f32_text(s),
        TypeTag::Str => true,
    }
}

/// The diagnostic cause for a value of type `t` that does not parse.
fn cause_str(t: TypeTag) -> (r: &'static str)
    ensures
        r@ == tag_cause(t),
{
    match t {
        TypeTag::I32 => "invalid i32 literal",
        TypeTag::F32 => "invalid f32 literal",
        TypeTag::Str => {
            proof {
                reveal_strlit("");
            }
            ""
        },
    }
}

/// Validate a raw argument list against a list of type tags: the arity
/// first (no value is examined when the arity is wrong), then each position
/// in order, reporting the first failure and never a later one.
pub fn validate_args(tags: &Vec<TypeTag>, args: &Vec<String>) -> (r: Result<(), ArgsError>)
    ensures
        r is Ok <==> args_conform(tags@, views_of(args@)),
        r matches Err(e) ==> validate_error_matches(tags@, views_of(args@), e),
{
    let ghost vals = views_of(args@);
    if args.len() != tags.len() {
        return Err(
            ArgsError::WrongNumberOfArguments { got: args.len(), expected: tags.len() },
        );
    }
    let mut i: usize = 0;
    while i < tags.len()
        invariant
            0 <= i <= tags@.len(),
            tags@.len() == args@.len(),
            vals == views_of(args@),
            forall|k: int| 0 <= k < i ==> arg_conforms(tags@[k], #[trigger] vals[k]),
        decreases tags@.len() - i,
    {
        let ok = check_arg(tags[i], (&args[i]).as_str());
        if !ok {
            proof {
                lemma_first_failing_from(tags@, vals, 0, i as int);
            }
            return Err(
                ArgsError::WrongArgumentValue {
                    position: i,
                    argument: (&args[i]).clone(),
                    error: cause_str(tags[i]).to_owned(),
                },
            );
        }
        i += 1;
    }
    Ok(())
}

// ---------------------------------------------------------------------------
// Command
// ---------------------------------------------------------------------------

/// A command handler: consumes the validated raw argument strings and
/// yields a status, a recoverable failure, or a critical failure. The
/// engine states nothing about what a handler returns; the session loop
/// says what it does with every possible outcome.
pub trait Handler {
    /// Execute the command on validated arguments.
    fn handle(&mut self, args: &Vec<String>) -> Result<CommandStatus, HandlerError>;
}

/// A single named unit the session can dispatch to: a description for the
/// help text, a rendered argument signature, the argument type tags, and
/// the handler.
pub struct Command<H> {
    /// Shown in the help message.
    pub description: String,
    /// The rendered signature entries, one per argument (`name:type`).
    pub args_info: Vec<String>,
    /// The argument type tags, in positional order.
    pub arg_tags: Vec<TypeTag>,
    /// The command's handler.
    pub handler: H,
}

impl<H: Handler> Command<H> {
    /// The argument type tags, in positional order.
    pub open spec fn tags(&self) -> Seq<TypeTag> {
        self.arg_tags@
    }

    /// Build a command from a description, a declared argument list, and a
    /// handler. The rendered signature holds one `name:type` entry per
    /// argument, in order.
    pub fn new(description: &str, args: Vec<ArgInfo>, handler: H) -> (c: Command<H>)
        ensures
            c.description@ == description@,
            c.tags() == tags_of(args@),
            views_of(c.args_info@) == args@.map_values(|a: ArgInfo| arg_label(a)),
            c.handler == handler,
    {
        let mut args_info: Vec<String> = Vec::new();
        let mut arg_tags: Vec<TypeTag> = Vec::new();
        let mut i: usize = 0;
        while i < args.len()
            invariant
                0 <= i <= args@.len(),
                views_of(args_info@) == args@.subrange(0, i as int).map_values(
                    |a: ArgInfo| arg_label(a),
                ),
                arg_tags@ == tags_of(args@.subrange(0, i as int)),
            decreases args@.len() - i,
        {
            let a = &args[i];
            let mut entry = String::new();
            match &a.name {
                Some(n) => entry.append(n.as_str()),
                None => (),
            }
            entry.append(":");
            match a.tag {
                TypeTag::I32 => entry.append("i32"),
                TypeTag::F32 => entry.append("f32"),
                TypeTag::Str => entry.append("String"),
            }
            proof {
                assert(entry@ == arg_label(args@[i as int]));
                assert(views_of(args_info@.push(entry)) =~= views_of(args_info@).push(entry@));
                assert(args@.subrange(0, i as int + 1).map_values(|x: ArgInfo| arg_label(x))
                    =~= args@.subrange(0, i as int).map_values(|x: ArgInfo| arg_label(x)).push(
                    arg_label(args@[i as int]),
                ));
                assert(tags_of(args@.subrange(0, i as int + 1)) =~= tags_of(
                    args@.subrange(0, i as int),
                ).push(args@[i as int].tag));
            }
            args_info.push(entry);
            arg_tags.push(a.tag);
            i += 1;
        }
        proof {
            assert(args@.subrange(0, args@.len() as int) =~= args@);
        }
        Command { description: description.to_owned(), args_info, arg_tags, handler }
    }

    /// Validate the arguments and invoke the handler if they are correct.
    ///
    /// When validation fails the command is left exactly as it was, the
    /// handler has not run, and the reported error is the validator's; when
    /// validation succeeds the result is the handler's, never an argument
    /// error.
    pub fn run(&mut self, args: &Vec<String>) -> (r: Result<CommandStatus, CommandError>)
        ensures
            !args_conform(old(self).tags(), views_of(args@)) ==> (r matches Err(
                CommandError::Args(e),
            ) && validate_error_matches(old(self).tags(), views_of(args@), e) && *final(self)
                == *old(self)),
            args_conform(old(self).tags(), views_of(args@)) ==> !(r matches Err(
                CommandError::Args(_),
            )),
            final(self).description == old(self).description,
            final(self).args_info == old(self).args_info,
            final(self).arg_tags == old(self).arg_tags,
    {
        match validate_args(&self.arg_tags, args) {
            Err(e) => Err(CommandError::Args(e)),
            Ok(()) => match self.handler.handle(args) {
                Ok(st) => Ok(st),
                Err(HandlerError::Recoverable(m)) => Err(CommandError::Recoverable(m)),
                Err(HandlerError::Critical(c)) => Err(CommandError::Critical(c)),
            },
        }
    }
}


/// One validated, parsed argument, in declaration order. Integer
/// arguments carry their value; floating-point arguments carry their
/// validated text (the engine holds no numeric float value; the embedding
/// application converts where it needs the number); text arguments carry
/// the token unchanged.
#[derive(Debug)]
pub enum ArgValue {
    /// The value of a well-formed i32 argument.
    Int(i32),
    /// The validated text of a well-formed f32 argument.
    Float(String),
    /// A text argument, passed through as tokenized.
    Text(String),
}

/// `v` is the parsed form of the raw text `s` under tag `t`.
pub open spec fn arg_value_matches(t: TypeTag, s: Seq<char>, v: ArgValue) -> bool {
    match t {
        TypeTag::I32 => v matches ArgValue::Int(x) && i32_literal_value(s) == Some(x as int),
        TypeTag::F32 => v matches ArgValue::Float(f) && f@ == s && is_f32_literal(s),
        TypeTag::Str => v matches ArgValue::Text(x) && x@ == s,
    }
}

/// Validate a raw argument list against a list of type tags and parse it:
/// the same checks as `validate_args`, and on success the typed values,
/// one per position, in order.
pub fn validate_and_parse(tags: &Vec<TypeTag>, args: &Vec<String>) -> (r: Result<
    Vec<ArgValue>,
    ArgsError,
>)
    ensures
        r is Ok <==> args_conform(tags@, views_of(args@)),
        r matches Ok(vs) ==> vs@.len() == tags@.len() && forall|i: int|
            0 <= i < tags@.len() ==> arg_value_matches(tags@[i], args@[i]@, #[trigger] vs@[i]),
        r matches Err(e) ==> validate_error_matches(tags@, views_of(args@), e),
{
    match validate_args(tags, args) {
        Err(e) => Err(e),
        Ok(()) => {
            let mut vs: Vec<ArgValue> = Vec::new();
            let mut i: usize = 0;
            while i < tags.len()
                invariant
                    0 <= i <= tags@.len(),
                    tags@.len() == args@.len(),
                    args_conform(tags@, views_of(args@)),
                    vs@.len() == i,
                    forall|k: int|
                        0 <= k < i ==> arg_value_matches(tags@[k], args@[k]@, #[trigger] vs@[k]),
                decreases tags@.len() - i,
            {
                proof {
                    assert(arg_conforms(tags@[i as int], views_of(args@)[i as int]));
                }
                let v = match tags[i] {
                    TypeTag::I32 => {
                        let x = match parse_i32((&args[i]).as_str()) {
                            Some(x) => x,
                            None => {
                                proof {
                                    assert(false);
                                }
                                0
                            },
                        };
                        ArgValue::Int(x)
                    },
                    TypeTag::F32 => ArgValue::Float((&args[i]).clone()),
                    TypeTag::Str => ArgValue::Text((&args[i]).clone()),
                };
                vs.push(v);
                i += 1;
            }
            Ok(vs)
        },
    }
}

// ---------------------------------------------------------------------------
// Laws of validation
// ---------------------------------------------------------------------------

/// An arity mismatch is reported as such, before any value is examined:
/// whenever the lengths differ, the reported error is the arity error,
/// whatever the values hold.
pub proof fn law_arity_checked_first(tags: Seq<TypeTag>, vals: Seq<Seq<char>>, e: ArgsError)
    requires
        tags.len() != vals.len(),
        validate_error_matches(tags, vals, e),
    ensures
        e matches ArgsError::WrongNumberOfArguments { got, expected } && got == vals.len()
            && expected == tags.len(),
{
}

proof fn lemma_first_failing_bounds(tags: Seq<TypeTag>, vals: Seq<Seq<char>>, i: int)
    requires
        tags.len() == vals.len(),
        0 <= i <= tags.len(),
    ensures
        i <= first_failing(tags, vals, i) <= tags.len(),
        forall|j: int|
            i <= j < first_failing(tags, vals, i) ==> arg_conforms(tags[j], #[trigger] vals[j]),
        first_failing(tags, vals, i) < tags.len() ==> !arg_conforms(
            tags[first_failing(tags, vals, i)],
            vals[first_failing(tags, vals, i)],
        ),
    decreases tags.len() - i,
{
    if 0 <= i < tags.len() && i < vals.len() && arg_conforms(tags[i], vals[i]) {
        lemma_first_failing_bounds(tags, vals, i + 1);
    }
}

/// A value failure is reported for exactly the first non-conforming
/// position, never a later one: every earlier value conforms, the
/// reported text is the value at that position, and the cause is the
/// cause for that position's type.
pub proof fn law_first_failure_reported(tags: Seq<TypeTag>, vals: Seq<Seq<char>>, e: ArgsError)
    requires
        tags.len() == vals.len(),
        !args_conform(tags, vals),
        validate_error_matches(tags, vals, e),
    ensures
        ({
            let i = first_failing(tags, vals, 0);
            &&& 0 <= i < tags.len()
            &&& forall|j: int| 0 <= j < i ==> arg_conforms(tags[j], #[trigger] vals[j])
            &&& !arg_conforms(tags[i], vals[i])
            &&& e matches ArgsError::WrongArgumentValue { position, argument, error } && position
                == i && argument@ == vals[i] && error@ == tag_cause(tags[i])
        }),
{
    lemma_first_failing_bounds(tags, vals, 0);
    let i = first_failing(tags, vals, 0);
    if i == tags.len() {
        assert(args_conform(tags, vals));
    }
}

} // verus!
