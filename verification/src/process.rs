//! Build stages: a program with its arguments, an optional working
//! directory, and whether a failure of the program may be ignored.

use vstd::prelude::*;
use vstd::string::*;

use crate::text::{copy_strings, push_char};

verus! {

/// Characters that a shell reads literally, so that a word made of them
/// needs no quoting.
pub open spec fn is_plain_shell_char(c: char) -> bool {
    ||| ('a' <= c && c <= 'z')
    ||| ('A' <= c && c <= 'Z')
    ||| ('0' <= c && c <= '9')
    ||| c == '/' || c == '.' || c == '_' || c == '-' || c == ':' || c == '='
}

pub open spec fn is_plain_shell_word(s: Seq<char>) -> bool {
    forall|i: int| 0 <= i < s.len() ==> is_plain_shell_char(#[trigger] s[i])
}

/// A single quote inside a single-quoted word is written `'\''`.
pub open spec fn quote_piece(c: char) -> Seq<char> {
    if c == '\'' {
        seq!['\'', '\\', '\'', '\'']
    } else {
        seq![c]
    }
}

pub open spec fn escape_quotes(s: Seq<char>) -> Seq<char>
    decreases s.len(),
{
    if s.len() == 0 {
        seq![]
    } else {
        escape_quotes(s.drop_last()) + quote_piece(s.last())
    }
}

/// How one word is written on a shell command line.
pub open spec fn spec_shell_arg(s: Seq<char>) -> Seq<char> {
    if is_plain_shell_word(s) {
        s
    } else {
        seq!['\''] + escape_quotes(s) + seq!['\'']
    }
}

/// The arguments of a command line, each preceded by a space.
pub open spec fn render_args(args: Seq<Seq<char>>) -> Seq<char>
    decreases args.len(),
{
    if args.len() == 0 {
        seq![]
    } else {
        render_args(args.drop_last()) + seq![' '] + spec_shell_arg(args.last())
    }
}

/// The shell line of a stage: `cd <cwd> && <program> <args>[ || true]`.
pub open spec fn spec_render_stage(
    program: Seq<char>,
    args: Seq<Seq<char>>,
    cwd: Option<Seq<char>>,
    allow_failure: bool,
) -> Seq<char> {
    let prefix = match cwd {
        Some(dir) => "cd "@ + spec_shell_arg(dir) + " && "@,
        None => seq![],
    };
    let suffix = if allow_failure {
        " || true"@
    } else {
        seq![]
    };
    prefix + spec_shell_arg(program) + render_args(args) + suffix
}

pub open spec fn option_view(o: Option<String>) -> Option<Seq<char>> {
    match o {
        Some(s) => Some(s@),
        None => None,
    }
}

/// One command of a build or deploy plan.
#[derive(Debug, PartialEq, Eq)]
pub struct CommandStage {
    pub label: String,
    pub program: String,
    pub args: Vec<String>,
    pub cwd: Option<String>,
    pub allow_failure: bool,
}

/// A stage as plain values.
#[verifier::ext_equal]
pub struct StageSpec {
    pub label: Seq<char>,
    pub program: Seq<char>,
    pub args: Seq<Seq<char>>,
    pub cwd: Option<Seq<char>>,
    pub allow_failure: bool,
}

pub open spec fn stage_of(stage: CommandStage) -> StageSpec {
    StageSpec {
        label: stage.label@,
        program: stage.program@,
        args: stage.args.deep_view(),
        cwd: option_view(stage.cwd),
        allow_failure: stage.allow_failure,
    }
}

pub open spec fn stages_of(stages: Seq<CommandStage>) -> Seq<StageSpec> {
    stages.map_values(|s: CommandStage| stage_of(s))
}

pub open spec fn plain_stage(
    label: Seq<char>,
    program: Seq<char>,
    args: Seq<Seq<char>>,
    cwd: Option<Seq<char>>,
) -> StageSpec {
    StageSpec { label, program, args, cwd, allow_failure: false }
}

/// `stage` with its failure ignored.
pub open spec fn with_allow_failure(stage: StageSpec) -> StageSpec {
    StageSpec { allow_failure: true, ..stage }
}

/// Ignoring a stage's failure twice is ignoring it once.
pub proof fn lemma_allow_failure_idempotent(stage: StageSpec)
    ensures
        with_allow_failure(with_allow_failure(stage)) == with_allow_failure(stage),
{
}

impl Clone for CommandStage {
    /// The same stage.
    fn clone(&self) -> (copy: Self)
        ensures
            copy.label == self.label,
            copy.program == self.program,
            copy.args@ == self.args@,
            copy.cwd == self.cwd,
            copy.allow_failure == self.allow_failure,
            stage_of(copy) == stage_of(*self),
    {
        let cwd = match &self.cwd {
            Some(dir) => Some(dir.clone()),
            None => None,
        };
        let copy = CommandStage {
            label: self.label.clone(),
            program: self.program.clone(),
            args: copy_strings(&self.args),
            cwd,
            allow_failure: self.allow_failure,
        };
        proof {
            assert(copy.args.deep_view() =~= self.args.deep_view());
        }
        copy
    }
}

impl CommandStage {
    pub open spec fn rendered(&self) -> Seq<char> {
        spec_render_stage(
            self.program@,
            self.args.deep_view(),
            option_view(self.cwd),
            self.allow_failure,
        )
    }

    /// A stage that runs in the current directory and must succeed.
    pub fn new(label: String, program: String, args: Vec<String>) -> (stage: Self)
        ensures
            stage.label == label,
            stage.program == program,
            stage.args == args,
            stage.cwd is None,
            !stage.allow_failure,
    {
        CommandStage { label, program, args, cwd: None, allow_failure: false }
    }

    /// The same stage, run from `cwd`.
    pub fn cwd(self, cwd: String) -> (stage: Self)
        ensures
            stage.label == self.label,
            stage.program == self.program,
            stage.args == self.args,
            stage.cwd == Some(cwd),
            stage.allow_failure == self.allow_failure,
    {
        let mut stage = self;
        stage.cwd = Some(cwd);
        stage
    }

    /// The same stage, whose failure is ignored.
    pub fn allow_failure(self) -> (stage: Self)
        ensures
            stage.label == self.label,
            stage.program == self.program,
            stage.args == self.args,
            stage.cwd == self.cwd,
            stage.allow_failure,
            stage_of(stage) == with_allow_failure(stage_of(self)),
    {
        let mut stage = self;
        stage.allow_failure = true;
        stage
    }

    /// Whether a run of this stage counts as a success, given whether the
    /// program exited successfully.
    pub fn run_succeeded(&self, exited_successfully: bool) -> (ok: bool)
        ensures
            ok == (exited_successfully || self.allow_failure),
    {
        exited_successfully || self.allow_failure
    }

    /// The stage as one shell line.
    pub fn render_shell(&self) -> (line: String)
        ensures
            line@ == self.rendered(),
    {
        let mut line = String::new();
        match &self.cwd {
            Some(dir) => {
                line.append("cd ");
                let quoted = shell_arg(dir.as_str());
                line.append(quoted.as_str());
                line.append(" && ");
            },
            None => {},
        }
        let program = shell_arg(self.program.as_str());
        line.append(program.as_str());
        let ghost prefix = line@;
        let ghost args = self.args.deep_view();
        let n = self.args.len();
        for i in 0..n
            invariant
                n == self.args.len(),
                args == self.args.deep_view(),
                args.len() == n,
                line@ == prefix + render_args(args.take(i as int)),
        {
            let word = shell_arg(self.args[i].as_str());
            proof {
                assert(args.take(i + 1).drop_last() =~= args.take(i as int));
                assert(args.take(i + 1).last() == self.args@[i as int]@);
            }
            push_char(&mut line, ' ');
            line.append(word.as_str());
            proof {
                assert(line@ =~= prefix + render_args(args.take(i + 1)));
            }
        }
        proof {
            assert(args.take(n as int) =~= args);
        }
        if self.allow_failure {
            line.append(" || true");
        }
        proof {
            assert(line@ =~= self.rendered());
        }
        line
    }
}

/// Decides, character by character, whether `s` needs quoting.
fn is_plain_word(s: &str) -> (plain: bool)
    ensures
        plain == is_plain_shell_word(s@),
{
    let n = s.unicode_len();
    for i in 0..n
        invariant
            n == s@.len(),
            forall|j: int| 0 <= j < i ==> is_plain_shell_char(#[trigger] s@[j]),
    {
        let c = s.get_char(i);
        let plain = ('a' <= c && c <= 'z') || ('A' <= c && c <= 'Z') || ('0' <= c && c <= '9')
            || c == '/' || c == '.' || c == '_' || c == '-' || c == ':' || c == '=';
        if !plain {
            return false;
        }
    }
    true
}

/// Writes one word for a shell: unchanged when every character is plain,
/// otherwise single-quoted with inner single quotes escaped.
pub fn shell_arg(value: &str) -> (word: String)
    ensures
        word@ == spec_shell_arg(value@),
{
    if is_plain_word(value) {
        return value.to_owned();
    }
    let n = value.unicode_len();
    let mut word = String::new();
    push_char(&mut word, '\'');
    for i in 0..n
        invariant
            n == value@.len(),
            word@ == seq!['\''] + escape_quotes(value@.take(i as int)),
    {
        let c = value.get_char(i);
        proof {
            assert(value@.take(i + 1).drop_last() =~= value@.take(i as int));
        }
        if c == '\'' {
            push_char(&mut word, '\'');
            push_char(&mut word, '\\');
            push_char(&mut word, '\'');
            push_char(&mut word, '\'');
        } else {
            push_char(&mut word, c);
        }
        proof {
            assert(word@ =~= seq!['\''] + escape_quotes(value@.take(i + 1)));
        }
    }
    proof {
        assert(value@.take(n as int) =~= value@);
    }
    push_char(&mut word, '\'');
    word
}

/// How a POSIX shell reads one word made of plain characters, single-quoted
/// parts and backslash escapes; `quoted` says whether a single-quoted part
/// is open.
pub open spec fn shell_word_value(w: Seq<char>, quoted: bool) -> Seq<char>
    decreases w.len(),
{
    if w.len() == 0 {
        seq![]
    } else if quoted {
        if w[0] == '\'' {
            shell_word_value(w.drop_first(), false)
        } else {
            seq![w[0]] + shell_word_value(w.drop_first(), true)
        }
    } else if w[0] == '\'' {
        shell_word_value(w.drop_first(), true)
    } else if w[0] == '\\' && w.len() >= 2 {
        seq![w[1]] + shell_word_value(w.subrange(2, w.len() as int), false)
    } else {
        seq![w[0]] + shell_word_value(w.drop_first(), false)
    }
}

proof fn lemma_plain_word_reads_back(w: Seq<char>)
    requires
        is_plain_shell_word(w),
    ensures
        shell_word_value(w, false) == w,
    decreases w.len(),
{
    if w.len() > 0 {
        assert(is_plain_shell_char(w[0]));
        assert(is_plain_shell_word(w.drop_first())) by {
            assert forall|i: int| 0 <= i < w.drop_first().len() implies is_plain_shell_char(
                #[trigger] w.drop_first()[i],
            ) by {
                assert(w.drop_first()[i] == w[i + 1]);
            }
        }
        lemma_plain_word_reads_back(w.drop_first());
        assert(seq![w[0]] + w.drop_first() =~= w);
    }
}

proof fn lemma_escape_front(c: char, rest: Seq<char>)
    ensures
        escape_quotes(seq![c] + rest) == quote_piece(c) + escape_quotes(rest),
    decreases rest.len(),
{
    if rest.len() == 0 {
        assert(escape_quotes(seq![c] + rest) == escape_quotes(seq![c]));
        assert(seq![c].drop_last() =~= Seq::<char>::empty());
        assert(escape_quotes(Seq::<char>::empty()) == Seq::<char>::empty());
        assert(seq![c].last() == c);
        assert(escape_quotes(seq![c]) == escape_quotes(seq![c].drop_last()) + quote_piece(c));
        assert(escape_quotes(seq![c]) =~= quote_piece(c));
    } else {
        let whole = seq![c] + rest;
        assert(whole.drop_last() =~= seq![c] + rest.drop_last());
        lemma_escape_front(c, rest.drop_last());
        assert(whole.last() == rest.last());
        assert(escape_quotes(whole) =~= quote_piece(c) + escape_quotes(rest));
    }
}

proof fn lemma_quoted_plain_step(c: char, tail: Seq<char>)
    requires
        c != '\'',
    ensures
        shell_word_value(seq![c] + tail, true) == seq![c] + shell_word_value(tail, true),
{
    let w = seq![c] + tail;
    assert(w[0] == c);
    assert(w.drop_first() =~= tail);
}

proof fn lemma_quoted_quote_step(tail: Seq<char>)
    ensures
        shell_word_value(quote_piece('\'') + tail, true) == seq!['\''] + shell_word_value(
            tail,
            true,
        ),
{
    let w = quote_piece('\'') + tail;
    let w1 = w.drop_first();
    assert(w[0] == '\'');
    assert(w1 =~= seq!['\\', '\'', '\''] + tail);
    assert(shell_word_value(w, true) == shell_word_value(w1, false));
    let w3 = w1.subrange(2, w1.len() as int);
    assert(w3 =~= seq!['\''] + tail);
    assert(w1[0] == '\\' && w1[1] == '\'' && w1.len() >= 2);
    assert(shell_word_value(w1, false) == seq!['\''] + shell_word_value(w3, false));
    assert(w3[0] == '\'');
    assert(w3.drop_first() =~= tail);
    assert(shell_word_value(w3, false) == shell_word_value(tail, true));
}

proof fn lemma_escaped_reads_back(v: Seq<char>)
    ensures
        shell_word_value(escape_quotes(v) + seq!['\''], true) == v,
    decreases v.len(),
{
    if v.len() == 0 {
        let w = escape_quotes(v) + seq!['\''];
        assert(w =~= seq!['\'']);
        assert(w[0] == '\'');
        assert(w.drop_first() =~= Seq::<char>::empty());
        assert(shell_word_value(w, true) == shell_word_value(w.drop_first(), false));
    } else {
        let c = v[0];
        let rest = v.drop_first();
        assert(seq![c] + rest =~= v);
        lemma_escape_front(c, rest);
        lemma_escaped_reads_back(rest);
        let tail = escape_quotes(rest) + seq!['\''];
        assert(escape_quotes(v) + seq!['\''] =~= quote_piece(c) + tail);
        if c == '\'' {
            lemma_quoted_quote_step(tail);
        } else {
            lemma_quoted_plain_step(c, tail);
        }
    }
}

/// A shell reads the word written by `shell_arg` back as the given
/// text: every argument of a rendered stage reaches the program verbatim.
pub proof fn lemma_shell_arg_reads_back(value: Seq<char>)
    ensures
        shell_word_value(spec_shell_arg(value), false) == value,
{
    if is_plain_shell_word(value) {
        lemma_plain_word_reads_back(value);
    } else {
        let w = seq!['\''] + escape_quotes(value) + seq!['\''];
        lemma_escaped_reads_back(value);
        assert(w.drop_first() =~= escape_quotes(value) + seq!['\'']);
    }
}

/// Characters that a POSIX shell reads specially outside quotes: blanks
/// and newlines, which end a word; `| & ; < > ( )`, which end a command;
/// `$` and the backquote, which expand; the backslash and both quotes,
/// which quote; `* ? [ ]`, which
/// match file names; and `# ~ { } !`, which start comments, home
/// directories, brace groups and history.
pub open spec fn is_shell_metachar(c: char) -> bool {
    ||| c == ' ' || c == '\t' || c == '\n' || c == '\r'
    ||| c == '|' || c == '&' || c == ';' || c == '<' || c == '>' || c == '(' || c == ')'
    ||| c == '$' || c == '`' || c == '\\' || c == '"' || c == '\''
    ||| c == '*' || c == '?' || c == '[' || c == ']'
    ||| c == '#' || c == '~' || c == '{' || c == '}' || c == '!'
}

proof fn lemma_escape_len(s: Seq<char>)
    ensures
        escape_quotes(s).len() >= s.len(),
    decreases s.len(),
{
    if s.len() > 0 {
        lemma_escape_len(s.drop_last());
    }
}

/// A word is written as it is only when every character is an ASCII
/// letter, digit or one of `/ . _ - : =`, none of which a shell reads
/// specially; a word with a shell metacharacter, a control character or a
/// non-ASCII character is written single-quoted.
pub proof fn lemma_shell_arg_quotes_special(value: Seq<char>)
    ensures
        spec_shell_arg(value) == value ==> forall|i: int|
            0 <= i < value.len() ==> {
                let c = #[trigger] value[i];
                &&& ('a' <= c <= 'z' || 'A' <= c <= 'Z' || '0' <= c <= '9' || c == '/' || c
                    == '.' || c == '_' || c == '-' || c == ':' || c == '=')
                &&& !is_shell_metachar(c)
            },
        (exists|i: int|
            0 <= i < value.len() && (is_shell_metachar(#[trigger] value[i]) || value[i] < ' '
                || value[i] > '~')) ==> {
            let w = spec_shell_arg(value);
            &&& w.len() == escape_quotes(value).len() + 2
            &&& w[0] == '\''
            &&& w.last() == '\''
        },
{
    lemma_escape_len(value);
    if !is_plain_shell_word(value) {
        let w = seq!['\''] + escape_quotes(value) + seq!['\''];
        assert(w.len() > value.len());
    } else {
        assert forall|i: int| 0 <= i < value.len() implies !(is_shell_metachar(#[trigger] value[i])
            || value[i] < ' ' || value[i] > '~') by {
            assert(is_plain_shell_char(value[i]));
        }
    }
}

/// A stage whose failure is ignored renders with ` || true` at the end, and
/// only then.
pub proof fn lemma_allow_failure_suffix(
    program: Seq<char>,
    args: Seq<Seq<char>>,
    cwd: Option<Seq<char>>,
)
    ensures
        spec_render_stage(program, args, cwd, true) == spec_render_stage(program, args, cwd, false)
            + " || true"@,
{
    let prefix = match cwd {
        Some(dir) => "cd "@ + spec_shell_arg(dir) + " && "@,
        None => seq![],
    };
    assert(prefix + spec_shell_arg(program) + render_args(args) + seq![] =~= prefix
        + spec_shell_arg(program) + render_args(args));
}

} // verus!
