//! The session engine: a registry of named commands built once through a
//! builder that enforces the name invariants, and the line-handling state
//! machine that tokenizes input, resolves a command by exact name or
//! unambiguous prefix, validates its arguments, dispatches its handler and
//! classifies the outcome.
//!
//! The engine does no input or output of its own: it consumes completed
//! input events and appends every line it wants printed to an output list
//! the caller supplies.

use vstd::prelude::*;
use vstd::string::StrSliceExecFns;
use vstd::string::StringExecFns;

use crate::command::{args_conform, args_error_message, tag_cause, ArgsError, Command,
    CommandError, CommandStatus, CriticalError, first_failing, Handler, TypeTag,
    validate_error_matches};
use crate::index::{has_two, is_singleton, prefix_matches, PrefixIndex, Resolution};
use crate::text::{dec_digits, is_blank, is_blank_text, is_space_char, join_with, join_strs,
    lemma_join_with_part_len, lemma_same_multiset_same_views, lemma_sorted_unique, lex_le,
    pad_right, pad_right_spec, sort_strings, spaces, spaces_str, str_eq, trim, trim_spec,
    views_of};

verus! {

// ---------------------------------------------------------------------------
// Tokenization (trusted boundary to shell_words)
// ---------------------------------------------------------------------------

/// What shell-word splitting yields on a line: its words after quote
/// removal, or nothing when a quote is unmatched. The result depends on
/// the characters of the line alone.
pub uninterp spec fn shell_split(line: Seq<char>) -> Option<Seq<Seq<char>>>;

/// Relies on shell_words::split: POSIX-shell word splitting with quote
/// removal, failing exactly on an unmatched quote and never panicking.
#[verifier::external_body]
fn shell_split_words(line: &str) -> (r: Option<Vec<String>>)
    ensures
        r matches Some(v) ==> shell_split(line@) == Some(views_of(v@)),
        r is None ==> shell_split(line@) is None,
{
    match shell_words::split(line) {
        Ok(v) => Some(v),
        Err(_) => None,
    }
}

/// Split an input line into shell words (respecting quotes): the words
/// when the line is well formed, nothing when a quote is unmatched.
pub fn split_args(line: &str) -> (r: Option<Vec<String>>)
    ensures
        r matches Some(v) ==> shell_split(line@) == Some(views_of(v@)),
        r is None ==> shell_split(line@) is None,
{
    shell_split_words(line)
}

// ---------------------------------------------------------------------------
// Help-text wrapping (trusted boundary to textwrap)
// ---------------------------------------------------------------------------

/// What word-wrapping yields on one logical line at a given width with a
/// given indent for continuation lines. The result depends on the text,
/// the width and the indent alone.
pub uninterp spec fn fill_of(text: Seq<char>, width: int, indent: Seq<char>) -> Seq<char>;

/// `s` holds at least one non-whitespace character.
pub open spec fn has_ink(s: Seq<char>) -> bool {
    exists|i: int| 0 <= i < s.len() && !is_space_char(#[trigger] s[i])
}

/// Some entry's signature or description holds a non-whitespace
/// character.
pub open spec fn entries_have_ink(es: Seq<(Seq<char>, Seq<char>)>) -> bool {
    exists|i: int| 0 <= i < es.len() && (has_ink(#[trigger] es[i].0) || has_ink(es[i].1))
}

/// Relies on textwrap::fill with Options::new(width), an empty initial
/// indent, and `indent` as the subsequent indent. Filling keeps every
/// word of the text, so text holding a non-whitespace character wraps to
/// non-empty text.
#[verifier::external_body]
fn wrap_line(text: &str, width: usize, indent: &str) -> (r: String)
    ensures
        r@ == fill_of(text@, width as int, indent@),
        has_ink(text@) ==> r@.len() > 0,
{
    let options = textwrap::Options::new(width).initial_indent("").subsequent_indent(indent);
    textwrap::fill(text, &options)
}

// ---------------------------------------------------------------------------
// Statuses, events, builder errors
// ---------------------------------------------------------------------------

/// State of the session after one step.
#[derive(Debug, Clone, Copy, PartialEq, Eq, Hash, Structural)]
pub enum LoopStatus {
    /// The session should continue with the next line.
    Continue,
    /// The session should leave the evaluation loop.
    Break,
}

/// One completed interaction of the line source.
#[derive(Debug)]
pub enum InputEvent {
    /// A full line was read.
    Line(String),
    /// The user interrupted the session.
    Interrupted,
    /// The line source is exhausted.
    EndOfInput,
}

/// Why the registry could not be built.
#[derive(Debug)]
pub enum BuilderError {
    /// More than one command was added with the same name.
    DuplicateCommands(String),
    /// The name is empty or holds a character that would make the command
    /// impossible to call.
    InvalidName(String),
    /// The name is reserved for a built-in command.
    ReservedName(String),
}

/// The user-visible description of a builder error.
pub open spec fn builder_error_message(e: BuilderError) -> Seq<char> {
    match e {
        BuilderError::DuplicateCommands(n) => "more than one command with name '"@ + n@
            + "' added"@,
        BuilderError::InvalidName(n) => "name '"@ + n@
            + "' cannot be parsed correctly, thus would be impossible to call"@,
        BuilderError::ReservedName(n) => "'"@ + n@ + "' is a reserved command name"@,
    }
}

impl BuilderError {
    /// Render the user-visible description of this error.
    pub fn message(&self) -> (r: String)
        ensures
            r@ == builder_error_message(*self),
    {
        match self {
            BuilderError::DuplicateCommands(n) => {
                let mut s = "more than one command with name '".to_owned();
                s.append(n.as_str());
                s.append("' added");
                s
            },
            BuilderError::InvalidName(n) => {
                let mut s = "name '".to_owned();
                s.append(n.as_str());
                s.append("' cannot be parsed correctly, thus would be impossible to call");
                s
            },
            BuilderError::ReservedName(n) => {
                let mut s = "'".to_owned();
                s.append(n.as_str());
                s.append("' is a reserved command name");
                s
            },
        }
    }
}

// ---------------------------------------------------------------------------
// Names
// ---------------------------------------------------------------------------

/// The names reserved for built-in commands, never registrable.
pub open spec fn reserved_names() -> Set<Seq<char>> {
    set!["help"@, "quit"@]
}

/// Decide whether `name` is reserved.
pub fn is_reserved(name: &str) -> (r: bool)
    ensures
        r == reserved_names().contains(name@),
{
    str_eq(name, "help") || str_eq(name, "quit")
}

/// A character that cannot occur in a command name: space, tab and
/// newline split the name into more than one shell token; a quote or a
/// backslash makes tokenization yield a different token than the name.
pub open spec fn name_breaking_char(c: char) -> bool {
    c == ' ' || c == '\t' || c == '\n' || c == '\'' || c == '"' || c == '\\'
}

/// A callable command name: non-empty, tokenizing to exactly the name
/// itself. Besides the name-breaking characters, the comment character is
/// excluded at the first position only, where it would swallow the whole
/// line.
pub open spec fn valid_name(n: Seq<char>) -> bool {
    &&& n.len() > 0
    &&& n[0] != '#'
    &&& forall|i: int| 0 <= i < n.len() ==> !name_breaking_char(#[trigger] n[i])
}

/// Decide whether `name` is a valid command name.
pub fn check_name(name: &str) -> (r: bool)
    ensures
        r == valid_name(name@),
{
    let n = name.unicode_len();
    if n == 0 {
        return false;
    }
    if name.get_char(0) == '#' {
        return false;
    }
    let mut i: usize = 0;
    while i < n
        invariant
            0 <= i <= n,
            forall|k: int| 0 <= k < i ==> !name_breaking_char(#[trigger] name@[k]),
        decreases n - i,
    {
        let c = name.get_char(i);
        if c == ' ' || c == '\t' || c == '\n' || c == '\'' || c == '"' || c == '\\' {
            return false;
        }
        i += 1;
    }
    true
}

// ---------------------------------------------------------------------------
// The registry and its builder
// ---------------------------------------------------------------------------

/// Builder for [`Repl`]: commands are added one by one and checked when
/// the registry is built; nothing can be added or removed afterwards.
pub struct ReplBuilder<H> {
    /// The commands added so far, in insertion order.
    pub commands: Vec<(String, Command<H>)>,
    /// Shown at the top of the help message.
    pub description: String,
    /// The prompt the line source should display.
    pub prompt: String,
    /// Width the help text is wrapped to.
    pub text_width: usize,
    /// Whether the line source should show inline hints.
    pub with_hints: bool,
    /// Whether the line source should offer tab-completion.
    pub with_completion: bool,
    /// Whether file names should be completed besides command names.
    pub with_filename_completion: bool,
    /// Whether a command may be executed from an unambiguous strict
    /// prefix of its name.
    pub predict_commands: bool,
}

/// A read-eval-print session: an immutable registry of commands, the
/// prefix index over all names, and the line-handling machine.
pub struct Repl<H> {
    /// The registered commands, in insertion order, names unique.
    pub commands: Vec<(String, Command<H>)>,
    /// Index over registered and reserved names.
    pub index: PrefixIndex,
    /// Shown at the top of the help message.
    pub description: String,
    /// The prompt the line source should display.
    pub prompt: String,
    /// Width the help text is wrapped to.
    pub text_width: usize,
    /// Whether the line source should show inline hints.
    pub with_hints: bool,
    /// Whether the line source should offer tab-completion.
    pub with_completion: bool,
    /// Whether file names should be completed besides command names.
    pub with_filename_completion: bool,
    /// Whether a command may be executed from an unambiguous strict
    /// prefix of its name.
    pub predict_commands: bool,
}

/// The names of a command list, in order.
pub open spec fn names_of<H>(cmds: Seq<(String, Command<H>)>) -> Seq<Seq<char>> {
    cmds.map_values(|p: (String, Command<H>)| p.0@)
}

/// Entry `i` of `cmds` is acceptable: a valid, unreserved name no earlier
/// entry already uses.
pub open spec fn entry_ok<H>(cmds: Seq<(String, Command<H>)>, i: int) -> bool {
    &&& valid_name(cmds[i].0@)
    &&& !reserved_names().contains(cmds[i].0@)
    &&& forall|j: int| 0 <= j < i ==> names_of(cmds)[j] != names_of(cmds)[i]
}

/// Every entry of `cmds` is acceptable.
pub open spec fn all_entries_ok<H>(cmds: Seq<(String, Command<H>)>) -> bool {
    forall|i: int| 0 <= i < cmds.len() ==> entry_ok(cmds, i)
}

/// The first unacceptable entry at or after `i` (`cmds.len()` if none).
pub open spec fn first_bad_entry<H>(cmds: Seq<(String, Command<H>)>, i: int) -> int
    decreases cmds.len() - i when i <= cmds.len()
{
    if 0 <= i < cmds.len() && !entry_ok(cmds, i) {
        i
    } else if 0 <= i < cmds.len() {
        first_bad_entry(cmds, i + 1)
    } else {
        i
    }
}

/// The error reported for the first unacceptable entry: an invalid name,
/// else a reserved name, else a duplicate.
pub open spec fn build_error_matches<H>(cmds: Seq<(String, Command<H>)>, e: BuilderError) -> bool {
    let i = first_bad_entry(cmds, 0);
    &&& 0 <= i < cmds.len()
    &&& if !valid_name(cmds[i].0@) {
        e matches BuilderError::InvalidName(n) && n@ == cmds[i].0@
    } else if reserved_names().contains(cmds[i].0@) {
        e matches BuilderError::ReservedName(n) && n@ == cmds[i].0@
    } else {
        e matches BuilderError::DuplicateCommands(n) && n@ == cmds[i].0@
    }
}

proof fn lemma_first_bad_entry_from<H>(cmds: Seq<(String, Command<H>)>, j: int, i: int)
    requires
        0 <= j <= i < cmds.len(),
        forall|k: int| j <= k < i ==> entry_ok(cmds, k),
        !entry_ok(cmds, i),
    ensures
        first_bad_entry(cmds, j) == i,
    decreases i - j,
{
    if j < i {
        lemma_first_bad_entry_from(cmds, j + 1, i);
    }
}

proof fn lemma_first_bad_entry_none<H>(cmds: Seq<(String, Command<H>)>, j: int)
    requires
        0 <= j <= cmds.len(),
        forall|k: int| j <= k < cmds.len() ==> entry_ok(cmds, k),
    ensures
        first_bad_entry(cmds, j) == cmds.len(),
    decreases cmds.len() - j,
{
    if j < cmds.len() {
        lemma_first_bad_entry_none(cmds, j + 1);
    }
}

impl<H: Handler> Repl<H> {
    /// The registered command names, in insertion order.
    pub open spec fn names(&self) -> Seq<Seq<char>> {
        names_of(self.commands@)
    }

    /// The registry is well formed: every name valid, unreserved and
    /// unique, and the index holds exactly the registered and reserved
    /// names. Established by the builder, preserved by every step.
    pub open spec fn wf(&self) -> bool {
        &&& all_entries_ok(self.commands@)
        &&& self.index.entries() == self.names().to_set().union(reserved_names())
    }

    /// Start a builder with default values.
    pub fn builder() -> (r: ReplBuilder<H>)
        ensures
            r.commands@.len() == 0,
            r.description@ == Seq::<char>::empty(),
            r.prompt@ == "> "@,
            r.text_width == 80,
            r.with_hints,
            r.with_completion,
            !r.with_filename_completion,
            r.predict_commands,
    {
        ReplBuilder::default()
    }
}

impl<H: Handler> Default for ReplBuilder<H> {
    /// The default configuration: prompt `"> "`, help wrapped to 80
    /// columns, hints and completion on, filename completion off, prefix
    /// execution on, no commands.
    fn default() -> (r: Self)
        ensures
            r.commands@.len() == 0,
            r.description@ == Seq::<char>::empty(),
            r.prompt@ == "> "@,
            r.text_width == 80,
            r.with_hints,
            r.with_completion,
            !r.with_filename_completion,
            r.predict_commands,
    {
        ReplBuilder {
            commands: Vec::new(),
            description: String::new(),
            prompt: "> ".to_owned(),
            text_width: 80,
            with_hints: true,
            with_completion: true,
            with_filename_completion: false,
            predict_commands: true,
        }
    }
}

impl<H: Handler> ReplBuilder<H> {
    /// Set the description shown in the help message.
    pub fn description(self, v: &str) -> (r: Self)
        ensures
            r == (ReplBuilder { description: r.description, ..self }),
            r.description@ == v@,
    {
        ReplBuilder { description: v.to_owned(), ..self }
    }

    /// Set the prompt string.
    pub fn prompt(self, v: &str) -> (r: Self)
        ensures
            r == (ReplBuilder { prompt: r.prompt, ..self }),
            r.prompt@ == v@,
    {
        ReplBuilder { prompt: v.to_owned(), ..self }
    }

    /// Set the width used when wrapping the help message.
    pub fn text_width(self, v: usize) -> (r: Self)
        ensures
            r == (ReplBuilder { text_width: v, ..self }),
    {
        ReplBuilder { text_width: v, ..self }
    }

    /// Set whether the line source should show inline hints.
    pub fn with_hints(self, v: bool) -> (r: Self)
        ensures
            r == (ReplBuilder { with_hints: v, ..self }),
    {
        ReplBuilder { with_hints: v, ..self }
    }

    /// Set whether the line source should offer tab-completion.
    pub fn with_completion(self, v: bool) -> (r: Self)
        ensures
            r == (ReplBuilder { with_completion: v, ..self }),
    {
        ReplBuilder { with_completion: v, ..self }
    }

    /// Set whether file names are completed besides command names.
    pub fn with_filename_completion(self, v: bool) -> (r: Self)
        ensures
            r == (ReplBuilder { with_filename_completion: v, ..self }),
    {
        ReplBuilder { with_filename_completion: v, ..self }
    }

    /// Set whether a command may be executed from an unambiguous strict
    /// prefix of its name.
    pub fn predict_commands(self, v: bool) -> (r: Self)
        ensures
            r == (ReplBuilder { predict_commands: v, ..self }),
    {
        ReplBuilder { predict_commands: v, ..self }
    }

    /// Add a command under `name`.
    pub fn add(self, name: &str, cmd: Command<H>) -> (r: Self)
        ensures
            r.commands@ == self.commands@.push((r.commands@[self.commands@.len() as int].0, cmd)),
            r.commands@.len() == self.commands@.len() + 1,
            r.commands@[self.commands@.len() as int].0@ == name@,
            r.commands@[self.commands@.len() as int].1 == cmd,
            r.description == self.description,
            r.prompt == self.prompt,
            r.text_width == self.text_width,
            r.with_hints == self.with_hints,
            r.with_completion == self.with_completion,
            r.with_filename_completion == self.with_filename_completion,
            r.predict_commands == self.predict_commands,
    {
        let mut b = self;
        b.commands.push((name.to_owned(), cmd));
        b
    }

    /// Check the added commands and build the registry: every name must
    /// be valid, not reserved, and unique; the first violation, in
    /// insertion order, is reported as the corresponding error (an
    /// invalid name is reported before a reserved one, a reserved one
    /// before a duplicate). On success the registry holds the commands
    /// unchanged and the index holds their names plus the reserved ones.
    pub fn build(self) -> (r: Result<Repl<H>, BuilderError>)
        ensures
            r is Ok <==> all_entries_ok(self.commands@),
            r matches Ok(repl) ==> ({
                &&& repl.wf()
                &&& repl.commands@ == self.commands@
                &&& repl.description == self.description
                &&& repl.prompt == self.prompt
                &&& repl.text_width == self.text_width
                &&& repl.with_hints == self.with_hints
                &&& repl.with_completion == self.with_completion
                &&& repl.with_filename_completion == self.with_filename_completion
                &&& repl.predict_commands == self.predict_commands
            }),
            r matches Err(e) ==> build_error_matches(self.commands@, e),
    {
        broadcast use vstd::prelude::Seq::lemma_push_to_set_commute;

        let ghost cmds = self.commands@;
        let mut i: usize = 0;
        while i < self.commands.len()
            invariant
                0 <= i <= cmds.len(),
                cmds == self.commands@,
                forall|k: int| 0 <= k < i ==> entry_ok(cmds, k),
            decreases cmds.len() - i,
        {
            let name = &self.commands[i].0;
            if !check_name(name.as_str()) {
                proof {
                    assert(!entry_ok(cmds, i as int));
                    lemma_first_bad_entry_from(cmds, 0, i as int);
                }
                return Err(BuilderError::InvalidName(name.clone()));
            }
            if is_reserved(name.as_str()) {
                proof {
                    assert(!entry_ok(cmds, i as int));
                    lemma_first_bad_entry_from(cmds, 0, i as int);
                }
                return Err(BuilderError::ReservedName(name.clone()));
            }
            let mut j: usize = 0;
            while j < i
                invariant
                    0 <= j <= i < cmds.len(),
                    forall|k: int| 0 <= k < j ==> names_of(cmds)[k] != names_of(cmds)[i as int],
                decreases i - j,
            {
                if str_eq((&self.commands[j].0).as_str(), name.as_str()) {
                    proof {
                        assert(names_of(cmds)[j as int] == names_of(cmds)[i as int]);
                        assert(!entry_ok(cmds, i as int));
                        lemma_first_bad_entry_from(cmds, 0, i as int);
                    }
                    return Err(BuilderError::DuplicateCommands(name.clone()));
                }
                j += 1;
            }
            proof {
                assert(entry_ok(cmds, i as int));
            }
            i += 1;
        }
        proof {
            lemma_first_bad_entry_none(cmds, 0);
        }
        // every entry is acceptable: build the index over all names
        let mut all_names: Vec<String> = Vec::new();
        let mut k: usize = 0;
        while k < self.commands.len()
            invariant
                0 <= k <= cmds.len(),
                cmds == self.commands@,
                views_of(all_names@) == names_of(cmds).subrange(0, k as int),
            decreases cmds.len() - k,
        {
            proof {
                assert(views_of(all_names@.push(self.commands@[k as int].0)) =~= views_of(
                    all_names@,
                ).push(self.commands@[k as int].0@));
                assert(names_of(cmds).subrange(0, k as int + 1) =~= names_of(cmds).subrange(
                    0,
                    k as int,
                ).push(names_of(cmds)[k as int]));
            }
            all_names.push((&self.commands[k].0).clone());
            k += 1;
        }
        proof {
            assert(names_of(cmds).subrange(0, cmds.len() as int) =~= names_of(cmds));
        }
        all_names.push("help".to_owned());
        all_names.push("quit".to_owned());
        proof {
            reveal_strlit("help");
            reveal_strlit("quit");
            assert forall|i: int| 0 <= i < all_names@.len() implies (#[trigger] all_names@[i])@.len()
                > 0 by {
                if i < cmds.len() {
                    assert(entry_ok(cmds, i));
                    assert(all_names@[i]@ == names_of(cmds)[i]);
                }
            }
        }
        let index = PrefixIndex::from_names(&all_names);
        proof {
            assert(views_of(all_names@) =~= names_of(cmds).push("help"@).push("quit"@));
            assert(views_of(all_names@).to_set() =~= names_of(cmds).to_set().union(
                reserved_names(),
            )) by {
                assert(views_of(all_names@) =~= names_of(cmds) + seq!["help"@, "quit"@]);
                assert forall|z: Seq<char>|
                    views_of(all_names@).to_set().contains(z) <==> (names_of(
                        cmds,
                    ).to_set().contains(z) || reserved_names().contains(z)) by {
                    if views_of(all_names@).to_set().contains(z) {
                        let ii = choose|ii: int|
                            0 <= ii < views_of(all_names@).len() && views_of(all_names@)[ii] == z;
                        if ii < names_of(cmds).len() {
                            assert(names_of(cmds)[ii] == z);
                        }
                    }
                    if names_of(cmds).to_set().contains(z) {
                        let ii = choose|ii: int|
                            0 <= ii < names_of(cmds).len() && names_of(cmds)[ii] == z;
                        assert(views_of(all_names@)[ii] == z);
                    }
                    if reserved_names().contains(z) {
                        if z == "help"@ {
                            assert(views_of(all_names@)[names_of(cmds).len() as int] == z);
                        } else {
                            assert(views_of(all_names@)[names_of(cmds).len() as int + 1] == z);
                        }
                    }
                }
            }
        }
        Ok(
            Repl {
                commands: self.commands,
                index,
                description: self.description,
                prompt: self.prompt,
                text_width: self.text_width,
                with_hints: self.with_hints,
                with_completion: self.with_completion,
                with_filename_completion: self.with_filename_completion,
                predict_commands: self.predict_commands,
            },
        )
    }
}


// ---------------------------------------------------------------------------
// Help rendering
// ---------------------------------------------------------------------------

/// The views of a list of (signature, description) pairs.
pub open spec fn pair_views(s: Seq<(String, String)>) -> Seq<(Seq<char>, Seq<char>)> {
    s.map_values(|p: (String, String)| (p.0@, p.1@))
}

/// The widest signature among the entries.
pub open spec fn max_sig_len(entries: Seq<(Seq<char>, Seq<char>)>) -> int
    decreases entries.len(),
{
    if entries.len() == 0 {
        0
    } else {
        let rest = max_sig_len(entries.drop_last());
        if entries.last().0.len() >= rest {
            entries.last().0.len() as int
        } else {
            rest
        }
    }
}

/// One rendered help line before wrapping: two spaces, the signature
/// padded to the common width, two spaces, the description.
pub open spec fn entry_line(sig: Seq<char>, desc: Seq<char>, width: int) -> Seq<char> {
    "  "@ + pad_right_spec(sig, width) + "  "@ + desc
}

/// A block of help entries: each line wrapped to `text_width` with
/// continuation lines indented under the description column, the wrapped
/// entries joined with newlines. Empty when there are no entries.
pub open spec fn entries_block(entries: Seq<(Seq<char>, Seq<char>)>, text_width: int) -> Seq<
    char,
> {
    if entries.len() == 0 {
        Seq::empty()
    } else {
        let width = max_sig_len(entries);
        join_with(
            entries.map_values(
                |e: (Seq<char>, Seq<char>)|
                    fill_of(entry_line(e.0, e.1, width), text_width, spaces(width + 4)),
            ),
            "\n"@,
        )
    }
}

/// A help line holds a non-whitespace character wherever its signature
/// or its description does: padding adds spaces only.
proof fn lemma_entry_line_ink(sig: Seq<char>, desc: Seq<char>, width: int)
    requires
        has_ink(sig) || has_ink(desc),
    ensures
        has_ink(entry_line(sig, desc, width)),
{
    let pad = pad_right_spec(sig, width);
    let line = entry_line(sig, desc, width);
    let l2 = "  "@.len() as int;
    if has_ink(sig) {
        let j = choose|j: int| 0 <= j < sig.len() && !is_space_char(sig[j]);
        assert(pad[j] == sig[j]);
        assert(line[l2 + j] == pad[j]);
        assert(!is_space_char(line[l2 + j]));
    } else {
        let j = choose|j: int| 0 <= j < desc.len() && !is_space_char(desc[j]);
        let k = l2 + pad.len() + l2 + j;
        assert(line[k] == desc[j]);
        assert(!is_space_char(line[k]));
    }
}

/// Render a block of (signature, description) entries, aligned on the
/// widest signature and wrapped to `text_width`.
#[verifier::rlimit(80)]
fn format_help_entries(entries: &Vec<(String, String)>, text_width: usize) -> (r: String)
    ensures
        r@ == entries_block(pair_views(entries@), text_width as int),
        entries_have_ink(pair_views(entries@)) ==> r@.len() > 0,
{
    if entries.len() == 0 {
        return String::new();
    }
    let ghost pv = pair_views(entries@);
    let mut width: usize = 0;
    let mut i: usize = 0;
    while i < entries.len()
        invariant
            0 <= i <= entries@.len(),
            pv == pair_views(entries@),
            width == max_sig_len(pv.subrange(0, i as int)),
        decreases entries@.len() - i,
    {
        let l = (&entries[i].0).as_str().unicode_len();
        proof {
            assert(pv.subrange(0, i as int + 1).drop_last() =~= pv.subrange(0, i as int));
            assert(pv.subrange(0, i as int + 1).last() == pv[i as int]);
        }
        if l > width {
            width = l;
        }
        i += 1;
    }
    proof {
        assert(pv.subrange(0, pv.len() as int) =~= pv);
    }
    let mut indent = spaces_str(width);
    indent.append("    ");
    proof {
        reveal_strlit("    ");
        assert(spaces(width as int) + "    "@ =~= spaces(width as int + 4));
    }
    let mut lines: Vec<String> = Vec::new();
    let mut k: usize = 0;
    while k < entries.len()
        invariant
            0 <= k <= entries@.len(),
            pv == pair_views(entries@),
            indent@ == spaces(max_sig_len(pv) + 4),
            width == max_sig_len(pv),
            views_of(lines@) == pv.subrange(0, k as int).map_values(
                |e: (Seq<char>, Seq<char>)|
                    fill_of(
                        entry_line(e.0, e.1, max_sig_len(pv)),
                        text_width as int,
                        spaces(max_sig_len(pv) + 4),
                    ),
            ),
            forall|m: int|
                0 <= m < k ==> ((has_ink(#[trigger] pv[m].0) || has_ink(pv[m].1)) ==> views_of(
                    lines@,
                )[m].len() > 0),
        decreases entries@.len() - k,
    {
        let sig = &entries[k].0;
        let desc = &entries[k].1;
        let padded = pad_right(sig.as_str(), width);
        let mut line = "  ".to_owned();
        line.append(padded.as_str());
        line.append("  ");
        line.append(desc.as_str());
        proof {
            if has_ink(pv[k as int].0) || has_ink(pv[k as int].1) {
                lemma_entry_line_ink(pv[k as int].0, pv[k as int].1, max_sig_len(pv));
            }
        }
        let wrapped = wrap_line(line.as_str(), text_width, indent.as_str());
        proof {
            assert(line@ == entry_line(pv[k as int].0, pv[k as int].1, max_sig_len(pv)));
            let f = |e: (Seq<char>, Seq<char>)|
                fill_of(
                    entry_line(e.0, e.1, max_sig_len(pv)),
                    text_width as int,
                    spaces(max_sig_len(pv) + 4),
                );
            assert(views_of(lines@.push(wrapped)) =~= views_of(lines@).push(wrapped@));
            assert(pv.subrange(0, k as int + 1).map_values(f) =~= pv.subrange(
                0,
                k as int,
            ).map_values(f).push(f(pv[k as int])));
        }
        lines.push(wrapped);
        k += 1;
    }
    proof {
        assert(pv.subrange(0, pv.len() as int) =~= pv);
    }
    let r = join_strs(&lines, "\n");
    proof {
        if entries_have_ink(pv) {
            let i = choose|i: int|
                0 <= i < pv.len() && (has_ink(#[trigger] pv[i].0) || has_ink(pv[i].1));
            assert(views_of(lines@)[i].len() > 0);
            lemma_join_with_part_len(views_of(lines@), "\n"@, i);
            assert(r@.len() > 0);
        }
    }
    r
}

/// The index of the command registered under `n`.
pub open spec fn cmd_index_of<H>(cmds: Seq<(String, Command<H>)>, n: Seq<char>) -> int {
    choose|k: int| 0 <= k < cmds.len() && names_of(cmds)[k] == n
}

/// The help signature of the command registered under `n`: the name, a
/// space, and its argument entries joined with spaces.
pub open spec fn user_sig<H>(cmds: Seq<(String, Command<H>)>, n: Seq<char>) -> Seq<char> {
    let c = cmds[cmd_index_of(cmds, n)].1;
    n + " "@ + join_with(views_of(c.args_info@), " "@)
}

/// The help entries for the registered commands, listed under the names
/// in `sn`, in that order.
pub open spec fn user_entries<H>(cmds: Seq<(String, Command<H>)>, sn: Seq<Seq<char>>) -> Seq<
    (Seq<char>, Seq<char>),
> {
    sn.map_values(
        |n: Seq<char>| (user_sig(cmds, n), cmds[cmd_index_of(cmds, n)].1.description@),
    )
}

/// The help entries for the built-in commands.
pub open spec fn reserved_entries() -> Seq<(Seq<char>, Seq<char>)> {
    seq![("help"@, "Show this help message"@), ("quit"@, "Quit repl"@)]
}

/// `sn` lists the set `s` completely, in strictly increasing
/// lexicographic order.
pub open spec fn is_sorted_listing(sn: Seq<Seq<char>>, s: Set<Seq<char>>) -> bool {
    &&& forall|i: int, j: int| 0 <= i < j < sn.len() ==> lex_le(#[trigger] sn[i], #[trigger] sn[j])
    &&& sn.no_duplicates()
    &&& sn.to_set() == s
}

impl<H: Handler> Repl<H> {
    /// The full help message for the registry, given the sorted listing
    /// `sn` of its names: the description, the registered commands as an
    /// aligned block, and the built-in commands, with the surrounding
    /// whitespace trimmed.
    pub open spec fn help_text_with(&self, sn: Seq<Seq<char>>) -> Seq<char> {
        trim_spec(
            "\n"@ + self.description@ + "\n\nAvailable commands:\n"@ + entries_block(
                user_entries(self.commands@, sn),
                self.text_width as int,
            ) + "\n\nOther commands:\n"@ + entries_block(reserved_entries(), self.text_width as int)
                + "\n        "@,
        )
    }

    /// `h` is the help message: the text built over the sorted listing of
    /// the registered names (which is unique).
    pub open spec fn help_matches(&self, h: Seq<char>) -> bool {
        exists|sn: Seq<Seq<char>>|
            is_sorted_listing(sn, self.names().to_set()) && h == self.help_text_with(sn)
    }

    /// Find the position of the command registered under `name`.
    fn find_index(&self, name: &str) -> (r: Option<usize>)
        ensures
            r matches Some(k) ==> 0 <= k < self.commands@.len() && self.names()[k as int]
                == name@,
            r is None ==> !self.names().contains(name@),
    {
        let mut i: usize = 0;
        while i < self.commands.len()
            invariant
                0 <= i <= self.commands@.len(),
                forall|k: int| 0 <= k < i ==> self.names()[k] != name@,
            decreases self.commands@.len() - i,
        {
            if str_eq((&self.commands[i].0).as_str(), name) {
                return Some(i);
            }
            i += 1;
        }
        None
    }

    /// A copy of the registered command names, in insertion order.
    pub fn command_names(&self) -> (r: Vec<String>)
        ensures
            views_of(r@) == self.names(),
    {
        let mut r: Vec<String> = Vec::new();
        let mut i: usize = 0;
        while i < self.commands.len()
            invariant
                0 <= i <= self.commands@.len(),
                views_of(r@) == self.names().subrange(0, i as int),
            decreases self.commands@.len() - i,
        {
            proof {
                assert(views_of(r@.push(self.commands@[i as int].0)) =~= views_of(r@).push(
                    self.commands@[i as int].0@,
                ));
                assert(self.names().subrange(0, i as int + 1) =~= self.names().subrange(
                    0,
                    i as int,
                ).push(self.names()[i as int]));
            }
            r.push((&self.commands[i].0).clone());
            i += 1;
        }
        proof {
            assert(self.names().subrange(0, self.names().len() as int) =~= self.names());
        }
        r
    }

    /// Render the help message: the description, then every registered
    /// command sorted by name with its signature and description, then
    /// the built-in commands.
    #[verifier::rlimit(50)]
    pub fn help(&self) -> (r: String)
        requires
            self.wf(),
        ensures
            self.help_matches(r@),
    {
        let names = self.command_names();
        let sorted = sort_strings(names);
        let ghost sn = views_of(sorted@);
        proof {
            assert(views_of(self.commands@.map_values(|p: (String, Command<H>)| p.0))
                =~= self.names());
            assert(self.names().no_duplicates()) by {
                if !self.names().no_duplicates() {
                    let (i, j) = choose|i: int, j: int|
                        0 <= i < j < self.names().len() && self.names()[i] == self.names()[j];
                    assert(entry_ok(self.commands@, j));
                }
            }
            lemma_same_multiset_same_views(names@, sorted@);
            assert(is_sorted_listing(sn, self.names().to_set())) by {
                assert(views_of(names@).to_set() == self.names().to_set());
            }
        }
        let mut entries: Vec<(String, String)> = Vec::new();
        let mut i: usize = 0;
        while i < sorted.len()
            invariant
                0 <= i <= sorted@.len(),
                sn == views_of(sorted@),
                self.wf(),
                sn.to_set() == self.names().to_set(),
                sn.no_duplicates(),
                pair_views(entries@) == user_entries(self.commands@, sn.subrange(0, i as int)),
            decreases sorted@.len() - i,
        {
            let name = &sorted[i];
            proof {
                assert(sn.to_set().contains(sn[i as int]));
                assert(self.names().to_set().contains(name@));
            }
            let k = match self.find_index(name.as_str()) {
                Some(k) => k,
                None => {
                    proof {
                        assert(self.names().contains(name@));
                        assert(false);
                    }
                    0
                },
            };
            let cmd = &self.commands[k].1;
            let mut sig = name.clone();
            sig.append(" ");
            let joined = join_strs(&cmd.args_info, " ");
            sig.append(joined.as_str());
            let desc = cmd.description.clone();
            proof {
                // the found index is the chosen one, names being unique
                let kk = cmd_index_of(self.commands@, name@);
                assert(self.names()[kk] == name@ && 0 <= kk < self.commands@.len()) by {
                    let w = choose|w: int|
                        0 <= w < self.commands@.len() && names_of(self.commands@)[w] == name@;
                }
                assert(kk == k as int) by {
                    if kk != k as int {
                        assert(entry_ok(
                            self.commands@,
                            if kk < k as int {
                                k as int
                            } else {
                                kk
                            },
                        ));
                    }
                }
                assert(sig@ == user_sig(self.commands@, sn[i as int]));
                let f = |n: Seq<char>|
                    (
                        user_sig(self.commands@, n),
                        self.commands@[cmd_index_of(self.commands@, n)].1.description@,
                    );
                assert(pair_views(entries@.push((sig, desc))) =~= pair_views(entries@).push(
                    (sig@, desc@),
                ));
                assert(sn.subrange(0, i as int + 1).map_values(f) =~= sn.subrange(
                    0,
                    i as int,
                ).map_values(f).push(f(sn[i as int])));
            }
            entries.push((sig, desc));
            i += 1;
        }
        proof {
            assert(sn.subrange(0, sn.len() as int) =~= sn);
        }
        let user_block = format_help_entries(&entries, self.text_width);
        let mut other: Vec<(String, String)> = Vec::new();
        other.push(("help".to_owned(), "Show this help message".to_owned()));
        other.push(("quit".to_owned(), "Quit repl".to_owned()));
        proof {
            assert(pair_views(other@) =~= reserved_entries());
        }
        let other_block = format_help_entries(&other, self.text_width);
        let mut msg = "\n".to_owned();
        msg.append(self.description.as_str());
        msg.append("\n\nAvailable commands:\n");
        msg.append(user_block.as_str());
        msg.append("\n\nOther commands:\n");
        msg.append(other_block.as_str());
        msg.append("\n        ");
        let r = trim(msg.as_str());
        proof {
            assert(r@ == self.help_text_with(sn));
        }
        r
    }
}


// ---------------------------------------------------------------------------
// Diagnostic messages
// ---------------------------------------------------------------------------

/// The diagnostic for a token no command name starts with.
pub open spec fn msg_not_found(p: Seq<char>) -> Seq<char> {
    "Command not found: "@ + p
}

/// The candidate list shown under a failed resolution.
pub open spec fn msg_candidates(cs: Seq<Seq<char>>) -> Seq<char> {
    "Candidates:\n  "@ + join_with(cs, "\n  "@)
}

/// The diagnostic prefix for a reported error.
pub open spec fn msg_error(cause: Seq<char>) -> Seq<char> {
    "Error: "@ + cause
}

/// The usage line for a command: its name and its signature entries.
pub open spec fn msg_usage(name: Seq<char>, infos: Seq<Seq<char>>) -> Seq<char> {
    "Usage: "@ + name + " "@ + join_with(infos, " "@)
}

/// The message of the argument error the validator reports for `vals`
/// against `tags`.
pub open spec fn validation_message(tags: Seq<TypeTag>, vals: Seq<Seq<char>>) -> Seq<char> {
    if tags.len() != vals.len() {
        "wrong number of arguments: got "@ + dec_digits(vals.len() as int) + ", expected "@
            + dec_digits(tags.len() as int)
    } else {
        let i = first_failing(tags, vals, 0);
        "failed to parse argument value '"@ + vals[i] + "': "@ + tag_cause(tags[i])
    }
}

/// The reported argument error renders to the validator's message.
proof fn lemma_validation_message(tags: Seq<TypeTag>, vals: Seq<Seq<char>>, e: ArgsError)
    requires
        validate_error_matches(tags, vals, e),
    ensures
        args_error_message(e) == validation_message(tags, vals),
{
}

/// Under unique names, the index of a found name is the chosen index.
proof fn lemma_cmd_index_unique<H>(cmds: Seq<(String, Command<H>)>, k: int, n: Seq<char>)
    requires
        all_entries_ok(cmds),
        0 <= k < cmds.len(),
        names_of(cmds)[k] == n,
    ensures
        cmd_index_of(cmds, n) == k,
{
    let kk = cmd_index_of(cmds, n);
    assert(0 <= kk < cmds.len() && names_of(cmds)[kk] == n) by {
        assert(0 <= k < cmds.len() && names_of(cmds)[k] == n);
    }
    if kk != k {
        assert(entry_ok(
            cmds,
            if kk < k {
                k
            } else {
                kk
            },
        ));
    }
}

// ---------------------------------------------------------------------------
// The session machine
// ---------------------------------------------------------------------------

/// What the step may do after a handler ran: the handler's outcome is not
/// specified, so one of these holds, whatever came back: the session
/// continues or breaks with no output, continues after reporting one
/// recoverable error, or propagates a critical error with no output.
pub open spec fn handler_outcome(
    out0: Seq<Seq<char>>,
    out1: Seq<Seq<char>>,
    r: Result<LoopStatus, CriticalError>,
) -> bool {
    ||| (r == Result::<LoopStatus, CriticalError>::Ok(LoopStatus::Continue) && out1 == out0)
    ||| (r == Result::<LoopStatus, CriticalError>::Ok(LoopStatus::Break) && out1 == out0)
    ||| (r == Result::<LoopStatus, CriticalError>::Ok(LoopStatus::Continue) && exists|c: Seq<char>|
        out1 == out0.push(msg_error(c)))
    ||| (r is Err && out1 == out0)
}

impl<H: Handler> Repl<H> {
    /// `post` is `self` with at most the handlers' private state changed:
    /// the same commands under the same names with the same signatures,
    /// the same index and the same configuration.
    pub open spec fn same_shape(&self, post: &Repl<H>) -> bool {
        &&& post.commands@.len() == self.commands@.len()
        &&& forall|i: int|
            0 <= i < self.commands@.len() ==> {
                &&& (#[trigger] post.commands@[i]).0 == self.commands@[i].0
                &&& post.commands@[i].1.description == self.commands@[i].1.description
                &&& post.commands@[i].1.args_info == self.commands@[i].1.args_info
                &&& post.commands@[i].1.arg_tags == self.commands@[i].1.arg_tags
            }
        &&& post.index == self.index
        &&& post.description == self.description
        &&& post.prompt == self.prompt
        &&& post.text_width == self.text_width
        &&& post.with_hints == self.with_hints
        &&& post.with_completion == self.with_completion
        &&& post.with_filename_completion == self.with_filename_completion
        &&& post.predict_commands == self.predict_commands
    }

    /// What dispatching the resolved name must do: `help` prints the help
    /// message and continues; `quit` breaks; a registered command is
    /// validated (on failure the error and a usage line are printed and
    /// the session continues, the handler does not run) and otherwise its
    /// handler decides, per `handler_outcome`.
    pub open spec fn dispatch_outcome(
        &self,
        name: Seq<char>,
        args: Seq<Seq<char>>,
        out0: Seq<Seq<char>>,
        out1: Seq<Seq<char>>,
        r: Result<LoopStatus, CriticalError>,
    ) -> bool {
        if name == "help"@ {
            &&& r == Result::<LoopStatus, CriticalError>::Ok(LoopStatus::Continue)
            &&& exists|h: Seq<char>| self.help_matches(h) && out1 == out0.push(h)
        } else if name == "quit"@ {
            &&& r == Result::<LoopStatus, CriticalError>::Ok(LoopStatus::Break)
            &&& out1 == out0
        } else {
            let k = cmd_index_of(self.commands@, name);
            let tags = self.commands@[k].1.arg_tags@;
            if !args_conform(tags, args) {
                &&& r == Result::<LoopStatus, CriticalError>::Ok(LoopStatus::Continue)
                &&& out1 == out0 + seq![
                    msg_error(validation_message(tags, args)),
                    msg_usage(name, views_of(self.commands@[k].1.args_info@)),
                ]
            } else {
                handler_outcome(out0, out1, r)
            }
        }
    }

    /// What one step on the words of a line must do. Empty input
    /// continues silently. Otherwise the first word is resolved against
    /// the index: an ambiguous token or one matching nothing is reported
    /// with the sorted candidates and a hint to use `help`; a uniquely
    /// matched name is dispatched (a strict-prefix match only when prefix
    /// execution is enabled; otherwise it is reported with the one
    /// candidate).
    pub open spec fn words_outcome(
        &self,
        post: &Repl<H>,
        words: Seq<Seq<char>>,
        out0: Seq<Seq<char>>,
        out1: Seq<Seq<char>>,
        r: Result<LoopStatus, CriticalError>,
    ) -> bool {
        if words.len() == 0 {
            &&& out1 == out0
            &&& r == Result::<LoopStatus, CriticalError>::Ok(LoopStatus::Continue)
        } else {
            let p = words[0];
            let m = prefix_matches(self.index.entries(), p);
            if has_two(m) {
                &&& r == Result::<LoopStatus, CriticalError>::Ok(LoopStatus::Continue)
                &&& exists|cs: Seq<Seq<char>>|
                    is_sorted_listing(cs, m) && out1 == out0 + seq![
                        msg_not_found(p),
                        msg_candidates(cs),
                        "Use 'help' to see available commands."@,
                    ]
            } else if exists|e: Seq<char>| is_singleton(m, e) {
                let e = choose|e: Seq<char>| is_singleton(m, e);
                if !self.predict_commands && e != p {
                    &&& r == Result::<LoopStatus, CriticalError>::Ok(LoopStatus::Continue)
                    &&& out1 == out0 + seq![
                        msg_not_found(p),
                        msg_candidates(seq![e]),
                        "Use 'help' to see available commands."@,
                    ]
                } else {
                    self.dispatch_outcome(e, words.drop_first(), out0, out1, r)
                }
            } else {
                &&& r == Result::<LoopStatus, CriticalError>::Ok(LoopStatus::Continue)
                &&& out1 == out0 + seq![
                    msg_not_found(p),
                    "Use 'help' to see available commands."@,
                ]
            }
        }
    }

    /// Dispatch a resolved name: the built-in `help` and `quit`, or a
    /// registered command run on the given arguments. Nothing is printed
    /// but the help message; argument and handler failures are returned
    /// for the caller to report.
    pub fn handle_command(&mut self, name: &str, args: &Vec<String>, out: &mut Vec<String>) -> (r:
        Result<CommandStatus, CommandError>)
        requires
            old(self).wf(),
            name@ == "help"@ || name@ == "quit"@ || old(self).names().contains(name@),
        ensures
            final(self).wf(),
            old(self).same_shape(final(self)),
            name@ == "help"@ ==> (r matches Ok(CommandStatus::Done) && exists|h: Seq<char>|
                old(self).help_matches(h) && views_of(final(out)@) == views_of(old(out)@).push(
                    h,
                )),
            name@ == "quit"@ ==> (r matches Ok(CommandStatus::Quit) && final(out)@ == old(out)@),
            (name@ != "help"@ && name@ != "quit"@) ==> ({
                let k = cmd_index_of(old(self).commands@, name@);
                let tags = old(self).commands@[k].1.arg_tags@;
                &&& final(out)@ == old(out)@
                &&& if !args_conform(tags, views_of(args@)) {
                    r matches Err(CommandError::Args(e)) && validate_error_matches(
                        tags,
                        views_of(args@),
                        e,
                    )
                } else {
                    !(r matches Err(CommandError::Args(_)))
                }
            }),
    {
        proof {
            reveal_strlit("help");
            reveal_strlit("quit");
            assert("help"@ =~= seq!['h', 'e', 'l', 'p']);
            assert("quit"@ =~= seq!['q', 'u', 'i', 't']);
            assert("help"@[0] != "quit"@[0]);
            assert("help"@ != "quit"@);
        }
        if str_eq(name, "help") {
            let h = self.help();
            proof {
                assert(views_of(out@.push(h)) =~= views_of(out@).push(h@));
            }
            out.push(h);
            Ok(CommandStatus::Done)
        } else if str_eq(name, "quit") {
            Ok(CommandStatus::Quit)
        } else {
            let k = match self.find_index(name) {
                Some(k) => k,
                None => {
                    proof {
                        assert(false);
                    }
                    return Ok(CommandStatus::Done);
                },
            };
            proof {
                lemma_cmd_index_unique(self.commands@, k as int, name@);
            }
            let ghost pre = *self;
            let (nm, mut cmd) = self.commands.remove(k);
            proof {
                assert(nm == pre.commands@[k as int].0);
                assert(cmd == pre.commands@[k as int].1);
            }
            let res = cmd.run(args);
            let ghost newcmd = cmd;
            self.commands.insert(k, (nm, cmd));
            proof {
                assert(newcmd.description == pre.commands@[k as int].1.description);
                assert(newcmd.args_info == pre.commands@[k as int].1.args_info);
                assert(newcmd.arg_tags == pre.commands@[k as int].1.arg_tags);
                assert(self.commands@ =~= pre.commands@.update(
                    k as int,
                    (pre.commands@[k as int].0, newcmd),
                ));
                assert(names_of(self.commands@) =~= names_of(pre.commands@));
                assert forall|i: int| 0 <= i < pre.commands@.len() implies {
                    &&& (#[trigger] self.commands@[i]).0 == pre.commands@[i].0
                    &&& self.commands@[i].1.description == pre.commands@[i].1.description
                    &&& self.commands@[i].1.args_info == pre.commands@[i].1.args_info
                    &&& self.commands@[i].1.arg_tags == pre.commands@[i].1.arg_tags
                } by {
                    if i != k as int {
                        assert(self.commands@[i] == pre.commands@[i]);
                    } else {
                        assert(self.commands@[i] == (pre.commands@[k as int].0, newcmd));
                    }
                }
                assert forall|i: int| 0 <= i < self.commands@.len() implies entry_ok(
                    self.commands@,
                    i,
                ) by {
                    assert(entry_ok(pre.commands@, i));
                    assert forall|j: int| 0 <= j < i implies names_of(self.commands@)[j]
                        != names_of(self.commands@)[i] by {
                        assert(names_of(pre.commands@)[j] != names_of(pre.commands@)[i]);
                    }
                }
            }
            res
        }
    }

    /// Handle the words of one tokenized line, per `words_outcome`:
    /// resolve the first word, report failed resolutions with their
    /// sorted candidates, dispatch a unique match, report argument and
    /// recoverable handler errors, and propagate a critical one.
    #[verifier::rlimit(80)]
    pub fn handle_words(&mut self, words: &Vec<String>, out: &mut Vec<String>) -> (r: Result<
        LoopStatus,
        CriticalError,
    >)
        requires
            old(self).wf(),
        ensures
            final(self).wf(),
            old(self).same_shape(final(self)),
            old(self).words_outcome(
                final(self),
                views_of(words@),
                views_of(old(out)@),
                views_of(final(out)@),
                r,
            ),
    {
        let ghost out0 = views_of(out@);
        if words.len() == 0 {
            return Ok(LoopStatus::Continue);
        }
        let ghost p = words@[0]@;
        let ghost m = prefix_matches(self.index.entries(), p);
        proof {
            assert(p == views_of(words@)[0]);
        }
        let pc = self.predict_commands;
        let resolution = self.index.resolve((&words[0]).as_str(), pc);
        match resolution {
            Resolution::Resolved(name) => {
                proof {
                    assert(!has_two(m));
                    let ec = choose|e: Seq<char>| is_singleton(m, e);
                    assert(is_singleton(m, ec));
                    assert(name@ == ec);
                    assert(pc || ec == p);
                }
                let mut tail: Vec<String> = Vec::new();
                let mut i: usize = 1;
                proof {
                    assert(views_of(tail@) =~= views_of(words@).subrange(1, 1));
                }
                while i < words.len()
                    invariant
                        1 <= i <= words@.len(),
                        views_of(tail@) == views_of(words@).subrange(1, i as int),
                    decreases words@.len() - i,
                {
                    proof {
                        assert(views_of(tail@.push(words@[i as int])) =~= views_of(tail@).push(
                            words@[i as int]@,
                        ));
                        assert(views_of(words@).subrange(1, i as int + 1) =~= views_of(
                            words@,
                        ).subrange(1, i as int).push(views_of(words@)[i as int]));
                    }
                    tail.push((&words[i]).clone());
                    i += 1;
                }
                proof {
                    assert(views_of(tail@) =~= views_of(words@).drop_first());
                    // the resolved name is reserved or registered
                    reveal_strlit("help");
                    reveal_strlit("quit");
                    if name@ != "help"@ && name@ != "quit"@ {
                        assert(self.index.entries().contains(name@)) by {
                            assert(m.contains(name@));
                            assert(p.len() > 0);
                        }
                        assert(self.names().to_set().contains(name@));
                        assert(self.names().contains(name@));
                    }
                }
                let res = self.handle_command(name.as_str(), &tail, out);
                match res {
                    Ok(CommandStatus::Done) => Ok(LoopStatus::Continue),
                    Ok(CommandStatus::Quit) => Ok(LoopStatus::Break),
                    Err(CommandError::Critical(c)) => Err(c),
                    Err(CommandError::Recoverable(msg)) => {
                        let mut s = "Error: ".to_owned();
                        s.append(msg.as_str());
                        proof {
                            assert(s@ == msg_error(msg@));
                            assert(views_of(out@.push(s)) =~= views_of(out@).push(s@));
                        }
                        out.push(s);
                        proof {
                            assert(views_of(out@) =~= out0.push(msg_error(msg@)));
                        }
                        Ok(LoopStatus::Continue)
                    },
                    Err(CommandError::Args(e)) => {
                        let ghost kk = cmd_index_of(old(self).commands@, name@);
                        let ghost tags = old(self).commands@[kk].1.arg_tags@;
                        proof {
                            lemma_validation_message(tags, views_of(words@).drop_first(), e);
                        }
                        let emsg = e.message();
                        let mut s = "Error: ".to_owned();
                        s.append(emsg.as_str());
                        proof {
                            assert(s@ == msg_error(validation_message(
                                tags,
                                views_of(words@).drop_first(),
                            )));
                            assert(views_of(out@.push(s)) =~= views_of(out@).push(s@));
                        }
                        out.push(s);
                        let k = match self.find_index(name.as_str()) {
                            Some(k) => k,
                            None => {
                                proof {
                                    assert(false);
                                }
                                return Ok(LoopStatus::Continue);
                            },
                        };
                        proof {
                            lemma_cmd_index_unique(self.commands@, k as int, name@);
                            assert(kk == k as int) by {
                                lemma_cmd_index_unique(old(self).commands@, k as int, name@);
                            }
                            assert(self.commands@[k as int].1.args_info == old(
                                self,
                            ).commands@[k as int].1.args_info);
                        }
                        let mut u = "Usage: ".to_owned();
                        u.append(name.as_str());
                        u.append(" ");
                        let joined = join_strs(&self.commands[k].1.args_info, " ");
                        u.append(joined.as_str());
                        proof {
                            assert(u@ == msg_usage(
                                name@,
                                views_of(old(self).commands@[kk].1.args_info@),
                            ));
                            assert(views_of(out@.push(u)) =~= views_of(out@).push(u@));
                        }
                        out.push(u);
                        proof {
                            assert(views_of(out@) =~= out0 + seq![
                                msg_error(validation_message(
                                    tags,
                                    views_of(words@).drop_first(),
                                )),
                                msg_usage(name@, views_of(old(self).commands@[kk].1.args_info@)),
                            ]);
                        }
                        Ok(LoopStatus::Continue)
                    },
                }
            },
            Resolution::NotFound(cands) => {
                let mut s = "Command not found: ".to_owned();
                s.append((&words[0]).as_str());
                proof {
                    assert(s@ == msg_not_found(p));
                    assert(views_of(out@.push(s)) =~= views_of(out@).push(s@));
                }
                out.push(s);
                if cands.len() > 0 {
                    proof {
                        let ec = choose|e: Seq<char>| is_singleton(m, e);
                        assert(is_singleton(m, ec));
                        assert(cands@[0]@ == ec);
                        assert(!pc && ec != p);
                    }
                    let mut c = "Candidates:\n  ".to_owned();
                    let joined = join_strs(&cands, "\n  ");
                    c.append(joined.as_str());
                    proof {
                        assert(views_of(cands@) =~= seq![cands@[0]@]);
                        assert(c@ == msg_candidates(seq![cands@[0]@]));
                        assert(views_of(out@.push(c)) =~= views_of(out@).push(c@));
                    }
                    out.push(c);
                    let uh = "Use 'help' to see available commands.".to_owned();
                    proof {
                        assert(views_of(out@.push(uh)) =~= views_of(out@).push(uh@));
                    }
                    out.push(uh);
                    proof {
                        let ec = choose|e: Seq<char>| is_singleton(m, e);
                        assert(views_of(out@) =~= out0 + seq![
                            msg_not_found(p),
                            msg_candidates(seq![ec]),
                            "Use 'help' to see available commands."@,
                        ]);
                    }
                    Ok(LoopStatus::Continue)
                } else {
                    proof {
                        assert(!(exists|e: Seq<char>| is_singleton(m, e)));
                        assert(!has_two(m));
                    }
                    let uh = "Use 'help' to see available commands.".to_owned();
                    proof {
                        assert(views_of(out@.push(uh)) =~= views_of(out@).push(uh@));
                    }
                    out.push(uh);
                    proof {
                        assert(views_of(out@) =~= out0 + seq![
                            msg_not_found(p),
                            "Use 'help' to see available commands."@,
                        ]);
                    }
                    Ok(LoopStatus::Continue)
                }
            },
            Resolution::Ambiguous(cands) => {
                proof {
                    assert(has_two(m));
                    assert(is_sorted_listing(views_of(cands@), m)) by {
                        assert forall|i: int, j: int|
                            0 <= i < j < views_of(cands@).len() implies lex_le(
                            #[trigger] views_of(cands@)[i],
                            #[trigger] views_of(cands@)[j],
                        ) by {
                            assert(lex_le(cands@[i]@, cands@[j]@));
                        }
                    }
                }
                let mut s = "Command not found: ".to_owned();
                s.append((&words[0]).as_str());
                proof {
                    assert(s@ == msg_not_found(p));
                    assert(views_of(out@.push(s)) =~= views_of(out@).push(s@));
                }
                out.push(s);
                let mut c = "Candidates:\n  ".to_owned();
                let joined = join_strs(&cands, "\n  ");
                c.append(joined.as_str());
                proof {
                    assert(c@ == msg_candidates(views_of(cands@)));
                    assert(views_of(out@.push(c)) =~= views_of(out@).push(c@));
                }
                out.push(c);
                let uh = "Use 'help' to see available commands.".to_owned();
                proof {
                    assert(views_of(out@.push(uh)) =~= views_of(out@).push(uh@));
                }
                out.push(uh);
                proof {
                    assert(views_of(out@) =~= out0 + seq![
                        msg_not_found(p),
                        msg_candidates(views_of(cands@)),
                        "Use 'help' to see available commands."@,
                    ]);
                }
                Ok(LoopStatus::Continue)
            },
        }
    }

    /// Handle one raw input line: tokenize it as shell words; report a
    /// malformed line and continue; hand the words on otherwise.
    pub fn handle_line(&mut self, line: &str, out: &mut Vec<String>) -> (r: Result<
        LoopStatus,
        CriticalError,
    >)
        requires
            old(self).wf(),
        ensures
            final(self).wf(),
            old(self).same_shape(final(self)),
            shell_split(line@) is None ==> (r == Result::<LoopStatus, CriticalError>::Ok(
                LoopStatus::Continue,
            ) && views_of(final(out)@) == views_of(old(out)@).push(
                "Error: missing closing quote"@,
            )),
            shell_split(line@) matches Some(ws) ==> old(self).words_outcome(
                final(self),
                ws,
                views_of(old(out)@),
                views_of(final(out)@),
                r,
            ),
    {
        match split_args(line) {
            None => {
                let s = "Error: missing closing quote".to_owned();
                proof {
                    assert(views_of(out@.push(s)) =~= views_of(out@).push(s@));
                }
                out.push(s);
                Ok(LoopStatus::Continue)
            },
            Some(words) => self.handle_words(&words, out),
        }
    }

    /// Handle one event of the line source: an interrupt prints `CTRL-C`
    /// and ends the session; end of input ends it silently; a blank line
    /// is skipped; any other line is handled as input.
    pub fn handle_event(&mut self, event: InputEvent, out: &mut Vec<String>) -> (r: Result<
        LoopStatus,
        CriticalError,
    >)
        requires
            old(self).wf(),
        ensures
            final(self).wf(),
            old(self).same_shape(final(self)),
            event matches InputEvent::Interrupted ==> (r == Result::<
                LoopStatus,
                CriticalError,
            >::Ok(LoopStatus::Break) && views_of(final(out)@) == views_of(old(out)@).push(
                "CTRL-C"@,
            )),
            event matches InputEvent::EndOfInput ==> (r == Result::<
                LoopStatus,
                CriticalError,
            >::Ok(LoopStatus::Break) && final(out)@ == old(out)@),
            event matches InputEvent::Line(l) ==> {
                &&& is_blank_text(l@) ==> (r == Result::<LoopStatus, CriticalError>::Ok(
                    LoopStatus::Continue,
                ) && final(out)@ == old(out)@)
                &&& !is_blank_text(l@) && shell_split(l@) is None ==> (r == Result::<
                    LoopStatus,
                    CriticalError,
                >::Ok(LoopStatus::Continue) && views_of(final(out)@) == views_of(
                    old(out)@,
                ).push("Error: missing closing quote"@))
                &&& !is_blank_text(l@) ==> (shell_split(l@) matches Some(ws)
                    ==> old(self).words_outcome(
                    final(self),
                    ws,
                    views_of(old(out)@),
                    views_of(final(out)@),
                    r,
                ))
            },
    {
        match event {
            InputEvent::Interrupted => {
                let s = "CTRL-C".to_owned();
                proof {
                    assert(views_of(out@.push(s)) =~= views_of(out@).push(s@));
                }
                out.push(s);
                Ok(LoopStatus::Break)
            },
            InputEvent::EndOfInput => Ok(LoopStatus::Break),
            InputEvent::Line(line) => {
                if is_blank(line.as_str()) {
                    Ok(LoopStatus::Continue)
                } else {
                    self.handle_line(line.as_str(), out)
                }
            },
        }
    }

    /// Every registered or reserved name starting with `prefix`, each
    /// once, in no guaranteed order; an empty prefix yields nothing.
    pub fn predict(&self, prefix: &str) -> (r: Vec<String>)
        requires
            self.wf(),
        ensures
            ({
                let m = prefix_matches(self.names().to_set().union(reserved_names()), prefix@);
                &&& forall|i: int| 0 <= i < r@.len() ==> m.contains(#[trigger] r@[i]@)
                &&& forall|e: Seq<char>|
                    #[trigger] m.contains(e) ==> exists|i: int| 0 <= i < r@.len() && r@[i]@ == e
                &&& forall|i: int, j: int| 0 <= i < j < r@.len() ==> r@[i]@ != r@[j]@
                &&& prefix@.len() == 0 ==> r@.len() == 0
            }),
    {
        let r = self.index.predict(prefix);
        proof {
            if prefix@.len() == 0 && r@.len() > 0 {
                assert(prefix_matches(self.index.entries(), prefix@).contains(r@[0]@));
            }
        }
        r
    }
}


/// The help message is deterministic: the sorted listing of a name set is
/// unique, so any two texts the help specification admits are the same.
pub proof fn law_help_text_unique<H: Handler>(repl: &Repl<H>, h1: Seq<char>, h2: Seq<char>)
    requires
        repl.help_matches(h1),
        repl.help_matches(h2),
    ensures
        h1 == h2,
{
    let sn1 = choose|sn: Seq<Seq<char>>|
        is_sorted_listing(sn, repl.names().to_set()) && h1 == repl.help_text_with(sn);
    let sn2 = choose|sn: Seq<Seq<char>>|
        is_sorted_listing(sn, repl.names().to_set()) && h2 == repl.help_text_with(sn);
    lemma_sorted_unique(sn1, sn2);
}


} // verus!
