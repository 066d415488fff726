//! What a compiled definition runs.

use crate::definition::check::{
    identifier, just_path, letter, numeral, valid_config, valid_job, valid_pipeline,
};
use crate::definition::error::{lemma_no_problem, DefinitionError};
use crate::definition::graph::{
    generated_keys, generated_names_are_distinct, key_exists, key_name, key_names, key_needs,
    key_node, lemma_generated, lemma_place, node_names, NodeKey,
};
use crate::definition::limits::JobLimit;
use crate::definition::model::{
    has_key, keys, lemma_position, position, ConfigModel, PipelineConfig,
};
use crate::definition::project::{Project, RunOptions};
use crate::definition::render::{
    command_settings, done_name, entry_name, escaped, gate_name, generated_nodes, generated_text,
    has_jobs, job_command, job_name, quoted, render_problem, CommandModel, RenderedPipeline,
};
use crate::definition::selection::{Selection, TargetModel};
use crate::definition::targets::{selection_problem, target_problem, target_problems};
use crate::native::{path_view, HostPath};
use crate::promises::reading::{
    all_as_read, as_read, lemma_file_reads_back, lemma_no_char, plain_name, recipes_in, writable,
    Recipe,
};
use crate::text::{
    decimal, decimal_has_digits, double_colon, first_position, lemma_double_colon, path_parts,
};
use vstd::prelude::*;
use vstd::utf8::decode_utf8;

verus! {

/// How far a POSIX shell has got in reading a command: the words that are
/// complete, and the one that is being read.
pub enum Shell {
    Between(Seq<Seq<char>>),
    Within(Seq<Seq<char>>, Seq<char>),
    Quoted(Seq<Seq<char>>, Seq<char>),
    Escaped(Seq<Seq<char>>, Seq<char>),
    Broken,
}

/// A character that means nothing special to a shell.
pub open spec fn ordinary(c: char) -> bool {
    97 <= c as u32 <= 122 || 48 <= c as u32 <= 57 || c == '-'
}

/// A shell reads the next character.
pub open spec fn shell_step(state: Shell, c: char) -> Shell {
    match state {
        Shell::Between(words) => if c == ' ' {
            state
        } else if c == '\'' {
            Shell::Quoted(words, seq![])
        } else if c == '\\' {
            Shell::Escaped(words, seq![])
        } else if ordinary(c) {
            Shell::Within(words, seq![c])
        } else {
            Shell::Broken
        },
        Shell::Within(words, word) => if c == ' ' {
            Shell::Between(words.push(word))
        } else if c == '\'' {
            Shell::Quoted(words, word)
        } else if c == '\\' {
            Shell::Escaped(words, word)
        } else if ordinary(c) {
            Shell::Within(words, word.push(c))
        } else {
            Shell::Broken
        },
        Shell::Quoted(words, word) => if c == '\'' {
            Shell::Within(words, word)
        } else {
            Shell::Quoted(words, word.push(c))
        },
        Shell::Escaped(words, word) => if c == '\n' {
            Shell::Broken
        } else {
            Shell::Within(words, word.push(c))
        },
        Shell::Broken => Shell::Broken,
    }
}

/// A shell reads on.
pub open spec fn shell_reads(state: Shell, text: Seq<char>) -> Shell
    decreases text.len(),
{
    if text.len() == 0 {
        state
    } else {
        shell_step(shell_reads(state, text.drop_last()), text.last())
    }
}

/// The words that a shell makes of a command.
pub open spec fn shell_words(command: Seq<char>) -> Option<Seq<Seq<char>>> {
    match shell_reads(Shell::Between(seq![]), command) {
        Shell::Between(words) => Some(words),
        Shell::Within(words, word) => Some(words.push(word)),
        _ => None,
    }
}

proof fn lemma_reads_on(state: Shell, a: Seq<char>, b: Seq<char>)
    ensures
        shell_reads(state, a + b) == shell_reads(shell_reads(state, a), b),
    decreases b.len(),
{
    if b.len() == 0 {
        assert(a + b =~= a);
    } else {
        assert((a + b).drop_last() =~= a + b.drop_last());
        assert((a + b).last() == b.last());
        lemma_reads_on(state, a, b.drop_last());
    }
}

proof fn lemma_reads_one(state: Shell, c: char)
    ensures
        shell_reads(state, seq![c]) == shell_step(state, c),
{
    assert(seq![c].drop_last() =~= Seq::<char>::empty());
    assert(shell_reads(state, Seq::<char>::empty()) == state);
}

proof fn lemma_reads_escaped(words: Seq<Seq<char>>, value: Seq<char>)
    ensures
        shell_reads(Shell::Quoted(words, seq![]), escaped(value)) == Shell::Quoted(words, value),
    decreases value.len(),
{
    let start = Shell::Quoted(words, Seq::<char>::empty());
    if value.len() == 0 {
        assert(escaped(value) =~= Seq::<char>::empty());
        assert(value =~= Seq::<char>::empty());
    } else {
        let front = value.drop_last();
        lemma_reads_escaped(words, front);
        assert(front.push(value.last()) =~= value);
        if value.last() == '\'' {
            let tail = seq!['\'', '\\', '\'', '\''];
            lemma_reads_on(start, escaped(front), tail);
            assert(tail =~= seq!['\''] + seq!['\\'] + seq!['\''] + seq!['\'']);
            let quoting = Shell::Quoted(words, front);
            lemma_reads_on(quoting, seq!['\''] + seq!['\\'] + seq!['\''], seq!['\'']);
            lemma_reads_on(quoting, seq!['\''] + seq!['\\'], seq!['\'']);
            lemma_reads_on(quoting, seq!['\''], seq!['\\']);
            lemma_reads_one(quoting, '\'');
            lemma_reads_one(Shell::Within(words, front), '\\');
            lemma_reads_one(Shell::Escaped(words, front), '\'');
            lemma_reads_one(Shell::Within(words, value), '\'');
        } else {
            lemma_reads_on(start, escaped(front), seq![value.last()]);
            assert(escaped(value) =~= escaped(front) + seq![value.last()]);
            lemma_reads_one(Shell::Quoted(words, front), value.last());
        }
    }
}

proof fn lemma_reads_quoted(words: Seq<Seq<char>>, value: Seq<char>)
    ensures
        shell_reads(Shell::Between(words), quoted(value)) == Shell::Within(words, value),
{
    let start = Shell::Between(words);
    lemma_reads_on(start, seq!['\''] + escaped(value), seq!['\'']);
    lemma_reads_on(start, seq!['\''], escaped(value));
    lemma_reads_one(start, '\'');
    lemma_reads_escaped(words, value);
    lemma_reads_one(Shell::Quoted(words, value), '\'');
}

proof fn lemma_reads_ordinary(words: Seq<Seq<char>>, word: Seq<char>)
    requires
        word.len() > 0,
        forall|i: int| 0 <= i < word.len() ==> ordinary(#[trigger] word[i]),
    ensures
        shell_reads(Shell::Between(words), word) == Shell::Within(words, word),
    decreases word.len(),
{
    let front = word.drop_last();
    assert(ordinary(word[word.len() - 1]));
    if front.len() == 0 {
        assert(shell_reads(Shell::Between(words), front) == Shell::Between(words));
        assert(word =~= seq![word.last()]);
    } else {
        assert forall|i: int| 0 <= i < front.len() implies ordinary(#[trigger] front[i]) by {
            assert(front[i] == word[i]);
        }
        lemma_reads_ordinary(words, front);
        assert(front.push(word.last()) =~= word);
    }
}

/// A word that ends with a blank is complete.
proof fn lemma_word_ends(words: Seq<Seq<char>>, word: Seq<char>)
    ensures
        shell_reads(Shell::Within(words, word), seq![' ']) == Shell::Between(words.push(word)),
{
    lemma_reads_one(Shell::Within(words, word), ' ');
}

/// An option is a word of its own.
proof fn lemma_reads_option(
    words: Seq<Seq<char>>,
    word: Seq<char>,
    text: Seq<char>,
    option: Seq<char>,
)
    requires
        text == seq![' '] + option,
        option.len() > 0,
        forall|i: int| 0 <= i < option.len() ==> ordinary(#[trigger] option[i]),
    ensures
        shell_reads(Shell::Within(words, word), text) == Shell::Within(words.push(word), option),
{
    lemma_reads_on(Shell::Within(words, word), seq![' '], option);
    lemma_word_ends(words, word);
    lemma_reads_ordinary(words.push(word), option);
}

/// The words of the command of a job.
pub open spec fn command_words(command: CommandModel, recipe: Seq<char>) -> Seq<Seq<char>> {
    seq![command.executable] + (match command.control {
        Some((justfile, directory)) => seq![
            "--justfile"@,
            justfile,
            "--working-directory"@,
            directory,
        ],
        None => seq![],
    }) + (match command.nested {
        Some(jobs) => seq!["--jobs"@, decimal(jobs)],
        None => seq![],
    }) + (if command.no_deps {
        seq!["--no-deps"@]
    } else {
        seq![]
    }) + seq![recipe]
}

/// A text that comes after a word adds these words.
#[verifier::opaque]
spec fn adds(text: Seq<char>, more: Seq<Seq<char>>) -> bool {
    forall|words: Seq<Seq<char>>, word: Seq<char>| #[trigger]
        shell_reads(Shell::Within(words, word), text) == Shell::Within(
            (words.push(word) + more).drop_last(),
            (words.push(word) + more).last(),
        )
}

proof fn lemma_adds_nothing()
    ensures
        adds(seq![], seq![]),
{
    reveal(adds);
    assert forall|words: Seq<Seq<char>>, word: Seq<char>| #[trigger]
        shell_reads(Shell::Within(words, word), Seq::<char>::empty()) == Shell::Within(
            (words.push(word) + Seq::<Seq<char>>::empty()).drop_last(),
            (words.push(word) + Seq::<Seq<char>>::empty()).last(),
        ) by {
        assert(words.push(word) + Seq::<Seq<char>>::empty() =~= words.push(word));
        assert(words.push(word).drop_last() =~= words);
    }
}

proof fn lemma_adds_both(a: Seq<char>, x: Seq<Seq<char>>, b: Seq<char>, y: Seq<Seq<char>>)
    requires
        adds(a, x),
        adds(b, y),
    ensures
        adds(a + b, x + y),
{
    reveal(adds);
    assert forall|words: Seq<Seq<char>>, word: Seq<char>| #[trigger]
        shell_reads(Shell::Within(words, word), a + b) == Shell::Within(
            (words.push(word) + (x + y)).drop_last(),
            (words.push(word) + (x + y)).last(),
        ) by {
        lemma_reads_on(Shell::Within(words, word), a, b);
        let after = words.push(word) + x;
        assert(after.drop_last().push(after.last()) =~= after);
        assert(after + y =~= words.push(word) + (x + y));
        assert(shell_reads(Shell::Within(after.drop_last(), after.last()), b) == Shell::Within(
            (after.drop_last().push(after.last()) + y).drop_last(),
            (after.drop_last().push(after.last()) + y).last(),
        ));
    }
}

proof fn lemma_adds_option(text: Seq<char>, option: Seq<char>)
    requires
        text == seq![' '] + option,
        option.len() > 0,
        forall|i: int| 0 <= i < option.len() ==> ordinary(#[trigger] option[i]),
    ensures
        adds(text, seq![option]),
{
    reveal(adds);
    assert forall|words: Seq<Seq<char>>, word: Seq<char>| #[trigger]
        shell_reads(Shell::Within(words, word), text) == Shell::Within(
            (words.push(word) + seq![option]).drop_last(),
            (words.push(word) + seq![option]).last(),
        ) by {
        lemma_reads_option(words, word, text, option);
        assert((words.push(word) + seq![option]).drop_last() =~= words.push(word));
    }
}

proof fn lemma_adds_quoted(value: Seq<char>)
    ensures
        adds(seq![' '] + quoted(value), seq![value]),
{
    reveal(adds);
    assert forall|words: Seq<Seq<char>>, word: Seq<char>| #[trigger]
        shell_reads(Shell::Within(words, word), seq![' '] + quoted(value)) == Shell::Within(
            (words.push(word) + seq![value]).drop_last(),
            (words.push(word) + seq![value]).last(),
        ) by {
        lemma_reads_on(Shell::Within(words, word), seq![' '], quoted(value));
        lemma_word_ends(words, word);
        lemma_reads_quoted(words.push(word), value);
        assert((words.push(word) + seq![value]).drop_last() =~= words.push(word));
    }
}

/// An option with a quoted value makes two words.
proof fn lemma_adds_valued(text: Seq<char>, option: Seq<char>, value: Seq<char>)
    requires
        text == seq![' '] + option + seq![' '],
        option.len() > 0,
        forall|i: int| 0 <= i < option.len() ==> ordinary(#[trigger] option[i]),
    ensures
        adds(text + quoted(value), seq![option, value]),
{
    lemma_adds_option(seq![' '] + option, option);
    lemma_adds_quoted(value);
    lemma_adds_both(seq![' '] + option, seq![option], seq![' '] + quoted(value), seq![value]);
    assert(text + quoted(value) =~= (seq![' '] + option) + (seq![' '] + quoted(value)));
    assert(seq![option] + seq![value] =~= seq![option, value]);
}

proof fn lemma_adds_control(justfile: Seq<char>, directory: Seq<char>)
    ensures
        adds(
            " --justfile "@ + quoted(justfile) + " --working-directory "@ + quoted(directory),
            seq!["--justfile"@, justfile, "--working-directory"@, directory],
        ),
{
    let a = " --justfile "@;
    let b = " --working-directory "@;
    let x = "--justfile"@;
    let y = "--working-directory"@;
    assert(a =~= seq![' '] + x + seq![' '] && forall|i: int|
        0 <= i < x.len() ==> ordinary(#[trigger] x[i])) by {
        reveal_strlit(" --justfile ");
        reveal_strlit("--justfile");
    }
    assert(b =~= seq![' '] + y + seq![' '] && forall|i: int|
        0 <= i < y.len() ==> ordinary(#[trigger] y[i])) by {
        reveal_strlit(" --working-directory ");
        reveal_strlit("--working-directory");
    }
    assert(x.len() > 0 && y.len() > 0) by {
        reveal_strlit("--justfile");
        reveal_strlit("--working-directory");
    }
    lemma_adds_valued(a, x, justfile);
    lemma_adds_valued(b, y, directory);
    lemma_adds_both(
        a + quoted(justfile),
        seq![x, justfile],
        b + quoted(directory),
        seq![y, directory],
    );
    assert(a + quoted(justfile) + b + quoted(directory) =~= (a + quoted(justfile)) + (b + quoted(
        directory,
    )));
    assert(seq![x, justfile] + seq![y, directory] =~= seq![x, justfile, y, directory]);
}

proof fn lemma_adds_jobs(jobs: nat)
    ensures
        adds(" --jobs "@ + decimal(jobs), seq!["--jobs"@, decimal(jobs)]),
{
    let a = " --jobs "@;
    let x = "--jobs"@;
    assert(a =~= seq![' '] + x + seq![' '] && x.len() > 0 && forall|i: int|
        0 <= i < x.len() ==> ordinary(#[trigger] x[i])) by {
        reveal_strlit(" --jobs ");
        reveal_strlit("--jobs");
    }
    decimal_has_digits(jobs);
    lemma_adds_option(seq![' '] + x, x);
    lemma_adds_option(seq![' '] + decimal(jobs), decimal(jobs));
    lemma_adds_both(seq![' '] + x, seq![x], seq![' '] + decimal(jobs), seq![decimal(jobs)]);
    assert(a + decimal(jobs) =~= (seq![' '] + x) + (seq![' '] + decimal(jobs)));
    assert(seq![x] + seq![decimal(jobs)] =~= seq![x, decimal(jobs)]);
}

proof fn lemma_adds_no_deps()
    ensures
        adds(" --no-deps"@, seq!["--no-deps"@]),
{
    reveal_strlit(" --no-deps");
    reveal_strlit("--no-deps");
    assert(" --no-deps"@ =~= seq![' '] + "--no-deps"@);
    lemma_adds_option(" --no-deps"@, "--no-deps"@);
}

proof fn lemma_words_added(word: Seq<char>, text: Seq<char>, more: Seq<Seq<char>>)
    requires
        adds(text, more),
    ensures
        shell_words(quoted(word) + text) == Some(seq![word] + more),
{
    reveal(adds);
    let none: Seq<Seq<char>> = seq![];
    lemma_reads_quoted(none, word);
    lemma_reads_on(Shell::Between(none), quoted(word), text);
    let all = none.push(word) + more;
    assert(shell_reads(Shell::Within(none, word), text) == Shell::Within(
        all.drop_last(),
        all.last(),
    ));
    assert(all.drop_last().push(all.last()) =~= all);
    assert(all =~= seq![word] + more);
}

proof fn lemma_line(
    line: Seq<char>,
    first: Seq<char>,
    a: Seq<char>,
    b: Seq<char>,
    c: Seq<char>,
    d: Seq<char>,
    e: Seq<char>,
)
    requires
        line == "@"@ + first + a + b + c + d + e,
    ensures
        line.len() > 0,
        line[0] == '@',
        line.skip(1) == first + (a + b + c + (d + e)),
{
    reveal_strlit("@");
    assert(line.skip(1) =~= first + (a + b + c + (d + e)));
}

proof fn lemma_command(command: CommandModel, recipe: Seq<char>)
    ensures
        job_command(command, recipe).len() > 0,
        job_command(command, recipe)[0] == '@',
        shell_words(job_command(command, recipe).skip(1)) == Some(command_words(command, recipe)),
{
    let first = quoted(command.executable);
    lemma_adds_nothing();
    let (control, x) = match command.control {
        Some((justfile, directory)) => (
            " --justfile "@ + quoted(justfile) + " --working-directory "@ + quoted(directory),
            seq!["--justfile"@, justfile, "--working-directory"@, directory],
        ),
        None => (seq![], seq![]),
    };
    if let Some((justfile, directory)) = command.control {
        lemma_adds_control(justfile, directory);
    }
    let (nested, y) = match command.nested {
        Some(jobs) => (" --jobs "@ + decimal(jobs), seq!["--jobs"@, decimal(jobs)]),
        None => (seq![], seq![]),
    };
    if let Some(jobs) = command.nested {
        lemma_adds_jobs(jobs);
    }
    let (skipping, z) = if command.no_deps {
        (" --no-deps"@, seq!["--no-deps"@])
    } else {
        (seq![], seq![])
    };
    if command.no_deps {
        lemma_adds_no_deps();
    }
    lemma_adds_quoted(recipe);
    lemma_adds_both(control, x, nested, y);
    lemma_adds_both(control + nested, x + y, skipping, z);
    let last = seq![' '] + quoted(recipe);
    lemma_adds_both(control + nested + skipping, x + y + z, last, seq![recipe]);
    lemma_words_added(
        command.executable,
        control + nested + skipping + last,
        x + y + z + seq![recipe],
    );
    lemma_line(
        job_command(command, recipe),
        first,
        control,
        nested,
        skipping,
        seq![' '],
        quoted(recipe),
    );
    assert(seq![command.executable] + (x + y + z + seq![recipe]) =~= command_words(
        command,
        recipe,
    ));
}

/// What a job is started with: the executable, the control file and directory
/// where there is one, the limit of a nested process, `--no-deps` where it was
/// asked for, and last the Just target of the job itself.
pub open spec fn invocation(
    executable: Seq<u8>,
    justfile: Option<Seq<u8>>,
    directory: Seq<u8>,
    limit: JobLimit,
    no_deps: bool,
    target: Seq<char>,
) -> Seq<Seq<char>> {
    seq![decode_utf8(executable)] + (match justfile {
        Some(path) => seq![
            "--justfile"@,
            decode_utf8(path),
            "--working-directory"@,
            decode_utf8(directory),
        ],
        None => seq![],
    }) + (match limit {
        JobLimit::Default => seq![],
        JobLimit::PerProcess(jobs) => seq!["--jobs"@, decimal(jobs@)],
        JobLimit::Capped(_) => seq!["--jobs"@, "1"@],
    }) + (if no_deps {
        seq!["--no-deps"@]
    } else {
        seq![]
    }) + seq![target]
}

/// The words of every job of a file, by its Just target.
pub open spec fn job_words(
    executable: Seq<u8>,
    justfile: Option<Seq<u8>>,
    directory: Seq<u8>,
    limit: JobLimit,
    no_deps: bool,
) -> spec_fn(Seq<char>) -> Seq<Seq<char>> {
    |target: Seq<char>| invocation(executable, justfile, directory, limit, no_deps, target)
}

proof fn lemma_invocation(
    executable: Seq<u8>,
    justfile: Option<Seq<u8>>,
    directory: Seq<u8>,
    limit: JobLimit,
    no_deps: bool,
    target: Seq<char>,
)
    ensures
        command_words(
            command_settings(directory, executable, justfile, limit, no_deps),
            target,
        ) == invocation(executable, justfile, directory, limit, no_deps, target),
{
    reveal_strlit("1");
    reveal_with_fuel(decimal, 2);
    assert(decimal(1) =~= "1"@);
}

/// The recipe of a file starts a command with these words, without showing it.
pub open spec fn starts(recipe: Recipe, words: Seq<Seq<char>>) -> bool {
    recipe.body matches Some(line) && line.len() > 0 && line[0] == '@' && shell_words(line.skip(1))
        == Some(words)
}

/// No two pipelines, and no two jobs of a pipeline, have the same name.
pub open spec fn names_are_distinct(config: ConfigModel) -> bool {
    &&& keys(config.pipelines).no_duplicates()
    &&& forall|i: int|
        0 <= i < config.pipelines.len() ==> keys((#[trigger] config.pipelines[i]).1.jobs).no_duplicates()
}

proof fn lemma_escaped_line(value: Seq<char>)
    requires
        !value.contains('\n'),
    ensures
        !quoted(value).contains('\n'),
    decreases value.len(),
{
    lemma_escaped_plain(value);
    let q = seq!['\''];
    assert(!q.contains('\n'));
    lemma_no_char(q, escaped(value), '\n');
    lemma_no_char(q + escaped(value), q, '\n');
}

proof fn lemma_escaped_plain(value: Seq<char>)
    requires
        !value.contains('\n'),
    ensures
        !escaped(value).contains('\n'),
    decreases value.len(),
{
    if value.len() > 0 {
        let front = value.drop_last();
        assert forall|i: int| 0 <= i < front.len() implies front[i] != '\n' by {
            assert(value.contains(value[i]));
        }
        assert(value.contains(value[value.len() - 1]));
        lemma_escaped_plain(front);
        let tail = if value.last() == '\'' {
            seq!['\'', '\\', '\'', '\'']
        } else {
            seq![value.last()]
        };
        assert(!tail.contains('\n'));
        lemma_no_char(escaped(front), tail, '\n');
        assert(escaped(value) =~= escaped(front) + tail);
    }
}

/// A command of one line, if nothing in it breaks the line.
proof fn lemma_command_line(command: CommandModel, recipe: Seq<char>)
    requires
        !command.executable.contains('\n'),
        command.control matches Some((justfile, directory)) ==> !justfile.contains('\n')
            && !directory.contains('\n'),
        !recipe.contains('\n'),
    ensures
        !job_command(command, recipe).contains('\n'),
{
    let first = "@"@ + quoted(command.executable);
    assert(!"@"@.contains('\n')) by {
        reveal_strlit("@");
    }
    lemma_escaped_line(command.executable);
    lemma_no_char("@"@, quoted(command.executable), '\n');
    let control = match command.control {
        Some((justfile, directory)) => " --justfile "@ + quoted(justfile)
            + " --working-directory "@ + quoted(directory),
        None => seq![],
    };
    if let Some((justfile, directory)) = command.control {
        assert(!" --justfile "@.contains('\n')) by {
            reveal_strlit(" --justfile ");
        }
        assert(!" --working-directory "@.contains('\n')) by {
            reveal_strlit(" --working-directory ");
        }
        lemma_escaped_line(justfile);
        lemma_escaped_line(directory);
        lemma_no_char(" --justfile "@, quoted(justfile), '\n');
        lemma_no_char(" --justfile "@ + quoted(justfile), " --working-directory "@, '\n');
        lemma_no_char(
            " --justfile "@ + quoted(justfile) + " --working-directory "@,
            quoted(directory),
            '\n',
        );
    }
    lemma_no_char(first, control, '\n');
    let nested = match command.nested {
        Some(jobs) => " --jobs "@ + decimal(jobs),
        None => seq![],
    };
    if let Some(jobs) = command.nested {
        assert(!" --jobs "@.contains('\n')) by {
            reveal_strlit(" --jobs ");
        }
        decimal_has_digits(jobs);
        assert(!decimal(jobs).contains('\n'));
        lemma_no_char(" --jobs "@, decimal(jobs), '\n');
    }
    lemma_no_char(first + control, nested, '\n');
    let skipping = if command.no_deps {
        " --no-deps"@
    } else {
        seq![]
    };
    assert(!skipping.contains('\n')) by {
        reveal_strlit(" --no-deps");
    }
    lemma_no_char(first + control + nested, skipping, '\n');
    lemma_no_char(first + control + nested + skipping, seq![' '], '\n');
    lemma_escaped_line(recipe);
    lemma_no_char(first + control + nested + skipping + seq![' '], quoted(recipe), '\n');
}

/// The characters of a cut text are those of its parts, and colons.
proof fn lemma_parts_have_all(value: Seq<char>, c: char)
    requires
        value.contains(c),
        c != ':',
    ensures
        exists|k: int|
            0 <= k < path_parts(value).len() && (#[trigger] path_parts(value)[k]).contains(c),
    decreases value.len(),
{
    lemma_double_colon(value);
    let n = double_colon(value);
    let parts = path_parts(value);
    if n < 0 || n + 2 > value.len() {
        assert(parts[0] == value);
    } else {
        let head = value.take(n);
        let tail = value.skip(n + 2);
        let i = choose|i: int| 0 <= i < value.len() && value[i] == c;
        assert(parts =~= seq![head] + path_parts(tail));
        if i < n {
            assert(head[i] == c);
            assert(parts[0].contains(c));
        } else if i >= n + 2 {
            assert(tail[i - n - 2] == c);
            lemma_parts_have_all(tail, c);
            let k = choose|k: int|
                0 <= k < path_parts(tail).len() && (#[trigger] path_parts(tail)[k]).contains(c);
            assert(parts[k + 1] == path_parts(tail)[k]);
        } else {
            lemma_colons_at(value);
        }
    }
}

pub proof fn lemma_colons_at(value: Seq<char>)
    ensures
        0 <= double_colon(value),
        double_colon(value) + 2 <= value.len() ==> value[double_colon(value)] == ':'
            && value[double_colon(value) + 1] == ':',
    decreases value.len(),
{
    if value.len() > 0 && !(value.len() >= 2 && value[0] == ':' && value[1] == ':') {
        lemma_colons_at(value.drop_first());
    }
}

proof fn lemma_just_path_is_a_line(value: Seq<char>)
    requires
        just_path(value),
    ensures
        !value.contains('\n'),
{
    if value.contains('\n') {
        lemma_parts_have_all(value, '\n');
        let k = choose|k: int|
            0 <= k < path_parts(value).len() && (#[trigger] path_parts(value)[k]).contains('\n');
        let part = path_parts(value)[k];
        assert(identifier(part));
        let i = choose|i: int| 0 <= i < part.len() && part[i] == '\n';
        assert(letter(part[i]) || numeral(part[i]) || part[i] == '_' || part[i] == '-');
    }
}

proof fn lemma_numbered_name(prefix: Seq<char>, n: nat)
    requires
        plain_name(prefix),
    ensures
        plain_name(prefix + decimal(n)),
{
    decimal_has_digits(n);
    assert forall|c: char| c == '\n' || c == ':' || c == ' ' implies !decimal(n).contains(c) by {}
    lemma_no_char(prefix, decimal(n), '\n');
    lemma_no_char(prefix, decimal(n), ':');
    lemma_no_char(prefix, decimal(n), ' ');
}

proof fn lemma_plain_key(key: NodeKey)
    ensures
        plain_name(key_name(key)),
{
    match key {
        NodeKey::Gate(i) => {
            reveal_strlit("__pipeline_gate_");
            lemma_numbered_name("__pipeline_gate_"@, i as nat);
        },
        NodeKey::Done(i) => {
            reveal_strlit("__pipeline_done_");
            lemma_numbered_name("__pipeline_done_"@, i as nat);
        },
        NodeKey::Job(i, j) => {
            reveal_strlit("__pipeline_job_");
            reveal_strlit("_");
            lemma_numbered_name("__pipeline_job_"@, i as nat);
            let front = "__pipeline_job_"@ + decimal(i as nat);
            lemma_no_char(front, "_"@, '\n');
            lemma_no_char(front, "_"@, ':');
            lemma_no_char(front, "_"@, ' ');
            lemma_numbered_name(front + "_"@, j as nat);
        },
        NodeKey::Entry => {
            reveal_strlit("__pipeline_selected");
        },
    }
}

proof fn lemma_node_is_writable(
    config: ConfigModel,
    command: CommandModel,
    targets: Seq<TargetModel>,
    key: NodeKey,
)
    requires
        valid_config(config),
        key_exists(config, key),
        has_jobs(config) ==> !command.executable.contains('\n') && (
        command.control matches Some((justfile, directory)) ==> !justfile.contains('\n')
            && !directory.contains('\n')),
    ensures
        writable(key_node(config, command, targets, key)),
{
    let node = key_node(config, command, targets, key);
    lemma_plain_key(key);
    assert forall|k: int| 0 <= k < node.needs.len() implies plain_name(#[trigger] node.needs[k]) by {
        lemma_plain_key(key_needs(config, targets, key)[k]);
    }
    if let NodeKey::Job(i, j) = key {
        let pipeline = config.pipelines[i].1;
        assert(valid_pipeline(config, config.pipelines[i].0, config.pipelines[i].1));
        assert(valid_job(pipeline, pipeline.jobs[j].0, pipeline.jobs[j].1));
        lemma_just_path_is_a_line(pipeline.jobs[j].1.just);
        lemma_command_line(command, pipeline.jobs[j].1.just);
    }
}

/// The recipe `name` of a file needs `other` before it runs.
pub open spec fn needs(file: Seq<Recipe>, name: Seq<char>, other: Seq<char>) -> bool {
    exists|m: int|
        0 <= m < file.len() && (#[trigger] file[m]).name == name && file[m].needs.contains(other)
}

/// The recipe `name` of a file starts a command with these words.
pub open spec fn recipe_starts(
    file: Seq<Recipe>,
    name: Seq<char>,
    words: Seq<Seq<char>>,
) -> bool {
    exists|m: int|
        0 <= m < file.len() && (#[trigger] file[m]).name == name && starts(file[m], words)
}

/// The name belongs to a job of the definition.
pub open spec fn is_job(config: ConfigModel, name: Seq<char>) -> bool {
    exists|i: int, j: int|
        0 <= i < config.pipelines.len() && 0 <= j < config.pipelines[i].1.jobs.len() && name
            == #[trigger] job_name(i, j)
}

/// Just starts each job of a definition with exactly its own words, and starts
/// nothing else. Recipes that need several others let them run side by side.
pub open spec fn starts_every_job(
    config: ConfigModel,
    file: Seq<Recipe>,
    words: spec_fn(Seq<char>) -> Seq<Seq<char>>,
) -> bool {
    &&& forall|i: int, j: int|
        #![trigger job_name(i, j)]
        0 <= i < config.pipelines.len() && 0 <= j < config.pipelines[i].1.jobs.len()
            ==> recipe_starts(file, job_name(i, j), words(config.pipelines[i].1.jobs[j].1.just))
    &&& forall|m: int|
        0 <= m < file.len() && (#[trigger] file[m]).body is Some ==> is_job(config, file[m].name)
    &&& forall|m: int|
        0 <= m < file.len() ==> (#[trigger] file[m]).parallel == (file[m].needs.len() > 1)
    &&& forall|m: int, n: int|
        0 <= m < n < file.len() ==> (#[trigger] file[m]).name != (#[trigger] file[n]).name
}

/// A job waits for the start of its pipeline and for the siblings that it needs.
pub open spec fn jobs_wait_as_declared(config: ConfigModel, file: Seq<Recipe>) -> bool {
    forall|i: int, j: int, other: Seq<char>|
        0 <= i < config.pipelines.len() && 0 <= j < config.pipelines[i].1.jobs.len() ==> (
        #[trigger] needs(file, job_name(i, j), other) <==> other == gate_name(i) || exists|l: int|
            0 <= l < config.pipelines[i].1.jobs.len() && other == #[trigger] job_name(i, l)
                && config.pipelines[i].1.jobs[j].1.needs.contains(config.pipelines[i].1.jobs[l].0))
}

/// A pipeline starts after the ends of the pipelines that it needs, and ends
/// after all its jobs, or after its start where it has none.
pub open spec fn pipelines_wait_as_declared(config: ConfigModel, file: Seq<Recipe>) -> bool {
    forall|i: int, other: Seq<char>|
        #![trigger needs(file, gate_name(i), other)]
        #![trigger needs(file, done_name(i), other)]
        0 <= i < config.pipelines.len() ==> {
            &&& needs(file, gate_name(i), other) <==> exists|p: int|
                0 <= p < config.pipelines.len() && other == #[trigger] done_name(p)
                    && config.pipelines[i].1.needs.contains(config.pipelines[p].0)
            &&& needs(file, done_name(i), other) <==> (config.pipelines[i].1.jobs.len() == 0
                && other == gate_name(i)) || exists|j: int|
                0 <= j < config.pipelines[i].1.jobs.len() && other == #[trigger] job_name(i, j)
        }
}

/// A run waits for the ends of the selected pipelines and for the selected jobs,
/// and for nothing else.
pub open spec fn runs_what_is_selected(
    config: ConfigModel,
    targets: Seq<TargetModel>,
    file: Seq<Recipe>,
    entry: Seq<char>,
) -> bool {
    &&& exists|m: int|
        0 <= m < file.len() && (#[trigger] file[m]).name == entry && file[m].body is None
    &&& forall|other: Seq<char>| #[trigger]
        needs(file, entry, other) <==> {
            ||| exists|p: int|
                0 <= p < config.pipelines.len() && other == #[trigger] done_name(p)
                    && targets.contains(TargetModel::Pipeline(config.pipelines[p].0))
            ||| exists|i: int, j: int|
                0 <= i < config.pipelines.len() && 0 <= j < config.pipelines[i].1.jobs.len()
                    && other == #[trigger] job_name(i, j) && targets.contains(
                    TargetModel::Job(config.pipelines[i].0, config.pipelines[i].1.jobs[j].0),
                )
        }
}

/// A key that is at a position is found there.
pub proof fn lemma_found<T>(entries: Seq<(Seq<char>, T)>, p: int)
    requires
        keys(entries).no_duplicates(),
        0 <= p < entries.len(),
    ensures
        position(entries, entries[p].0) == p,
{
    lemma_position(entries, entries[p].0);
    assert(keys(entries)[p] == entries[p].0);
    let k = position(entries, entries[p].0);
    assert(keys(entries)[k] == keys(entries)[p]);
}

spec fn file_of(
    config: ConfigModel,
    command: CommandModel,
    targets: Seq<TargetModel>,
) -> Seq<Recipe> {
    all_as_read(generated_nodes(config, command, targets))
}

/// What the recipe of a key needs.
proof fn lemma_needs_of(
    config: ConfigModel,
    command: CommandModel,
    targets: Seq<TargetModel>,
    key: NodeKey,
    other: Seq<char>,
)
    requires
        key_exists(config, key),
    ensures
        needs(file_of(config, command, targets), key_name(key), other) <==> exists|k: int|
            0 <= k < key_needs(config, targets, key).len() && key_name(
                #[trigger] key_needs(config, targets, key)[k],
            ) == other,
{
    lemma_place(config, command, targets, key);
    lemma_generated(config, command, targets);
    generated_names_are_distinct(config, command, targets);
    let nodes = generated_nodes(config, command, targets);
    let file = file_of(config, command, targets);
    let names = node_names(nodes);
    let m = first_position(names, key_name(key));
    let wanted = key_needs(config, targets, key);
    assert(file[m] == as_read(nodes[m]));
    assert(file[m].needs == key_names(wanted));
    if needs(file, key_name(key), other) {
        let n = choose|n: int|
            0 <= n < file.len() && (#[trigger] file[n]).name == key_name(key)
                && file[n].needs.contains(other);
        assert(names[n] == names[m]);
        assert(n == m);
        let k = choose|k: int| 0 <= k < file[m].needs.len() && file[m].needs[k] == other;
        assert(key_name(wanted[k]) == other);
    }
    if exists|k: int| 0 <= k < wanted.len() && key_name(#[trigger] wanted[k]) == other {
        let k = choose|k: int| 0 <= k < wanted.len() && key_name(#[trigger] wanted[k]) == other;
        assert(file[m].needs[k] == other);
        assert(file[m].needs.contains(other));
    }
}

proof fn lemma_jobs_wait(config: ConfigModel, command: CommandModel, targets: Seq<TargetModel>)
    requires
        valid_config(config),
        names_are_distinct(config),
    ensures
        jobs_wait_as_declared(config, file_of(config, command, targets)),
{
    let file = file_of(config, command, targets);
    assert forall|i: int, j: int, other: Seq<char>|
        0 <= i < config.pipelines.len() && 0 <= j < config.pipelines[i].1.jobs.len() implies (
    #[trigger] needs(file, job_name(i, j), other) <==> other == gate_name(i) || exists|l: int|
        0 <= l < config.pipelines[i].1.jobs.len() && other == #[trigger] job_name(i, l)
            && config.pipelines[i].1.jobs[j].1.needs.contains(config.pipelines[i].1.jobs[l].0)) by {
        let jobs = config.pipelines[i].1.jobs;
        let list = jobs[j].1.needs;
        let wanted = key_needs(config, targets, NodeKey::Job(i, j));
        assert(keys(config.pipelines[i].1.jobs).no_duplicates());
        assert(valid_pipeline(config, config.pipelines[i].0, config.pipelines[i].1));
        assert(valid_job(config.pipelines[i].1, jobs[j].0, jobs[j].1));
        lemma_needs_of(config, command, targets, NodeKey::Job(i, j), other);
        if other == gate_name(i) {
            assert(key_name(wanted[0]) == other);
        }
        if exists|k: int| 0 <= k < wanted.len() && key_name(#[trigger] wanted[k]) == other {
            let k = choose|k: int|
                0 <= k < wanted.len() && key_name(#[trigger] wanted[k]) == other;
            if k > 0 {
                let name = list[k - 1];
                assert(has_key(jobs, name));
                lemma_position(jobs, name);
                let l = position(jobs, name);
                assert(wanted[k] == NodeKey::Job(i, l));
                assert(list.contains(jobs[l].0));
                assert(other == job_name(i, l));
            }
        }
        if exists|l: int|
            0 <= l < jobs.len() && other == #[trigger] job_name(i, l) && list.contains(
                jobs[l].0,
            ) {
            let l = choose|l: int|
                0 <= l < jobs.len() && other == #[trigger] job_name(i, l) && list.contains(
                    jobs[l].0,
                );
            let k = choose|k: int| 0 <= k < list.len() && list[k] == jobs[l].0;
            lemma_found(jobs, l);
            assert(wanted[k + 1] == NodeKey::Job(i, l));
            assert(key_name(wanted[k + 1]) == other);
        }
    }
}

proof fn lemma_gate_waits(
    config: ConfigModel,
    command: CommandModel,
    targets: Seq<TargetModel>,
    i: int,
    other: Seq<char>,
)
    requires
        valid_config(config),
        names_are_distinct(config),
        0 <= i < config.pipelines.len(),
    ensures
        needs(file_of(config, command, targets), gate_name(i), other) <==> exists|p: int|
            0 <= p < config.pipelines.len() && other == #[trigger] done_name(p)
                && config.pipelines[i].1.needs.contains(config.pipelines[p].0),
{
    let list = config.pipelines[i].1.needs;
    let wanted = key_needs(config, targets, NodeKey::Gate(i));
    assert(valid_pipeline(config, config.pipelines[i].0, config.pipelines[i].1));
    lemma_needs_of(config, command, targets, NodeKey::Gate(i), other);
    if exists|k: int| 0 <= k < wanted.len() && key_name(#[trigger] wanted[k]) == other {
        let k = choose|k: int| 0 <= k < wanted.len() && key_name(#[trigger] wanted[k]) == other;
        let name = list[k];
        assert(has_key(config.pipelines, name));
        lemma_position(config.pipelines, name);
        let p = position(config.pipelines, name);
        assert(list.contains(config.pipelines[p].0));
        assert(other == done_name(p));
    }
    if exists|p: int|
        0 <= p < config.pipelines.len() && other == #[trigger] done_name(p) && list.contains(
            config.pipelines[p].0,
        ) {
        let p = choose|p: int|
            0 <= p < config.pipelines.len() && other == #[trigger] done_name(p) && list.contains(
                config.pipelines[p].0,
            );
        let k = choose|k: int| 0 <= k < list.len() && list[k] == config.pipelines[p].0;
        lemma_found(config.pipelines, p);
        assert(wanted[k] == NodeKey::Done(p));
        assert(key_name(wanted[k]) == other);
    }
}

proof fn lemma_done_waits(
    config: ConfigModel,
    command: CommandModel,
    targets: Seq<TargetModel>,
    i: int,
    other: Seq<char>,
)
    requires
        0 <= i < config.pipelines.len(),
    ensures
        needs(file_of(config, command, targets), done_name(i), other) <==> (
        config.pipelines[i].1.jobs.len() == 0 && other == gate_name(i)) || exists|j: int|
            0 <= j < config.pipelines[i].1.jobs.len() && other == #[trigger] job_name(i, j),
{
    let jobs = config.pipelines[i].1.jobs;
    let wanted = key_needs(config, targets, NodeKey::Done(i));
    lemma_needs_of(config, command, targets, NodeKey::Done(i), other);
    if jobs.len() == 0 {
        assert(key_name(wanted[0]) == gate_name(i));
    } else {
        if exists|k: int| 0 <= k < wanted.len() && key_name(#[trigger] wanted[k]) == other {
            let k = choose|k: int|
                0 <= k < wanted.len() && key_name(#[trigger] wanted[k]) == other;
            assert(wanted[k] == NodeKey::Job(i, k));
            assert(other == job_name(i, k));
        }
        if exists|j: int| 0 <= j < jobs.len() && other == #[trigger] job_name(i, j) {
            let j = choose|j: int| 0 <= j < jobs.len() && other == #[trigger] job_name(i, j);
            assert(wanted[j] == NodeKey::Job(i, j));
            assert(key_name(wanted[j]) == other);
        }
    }
}

proof fn lemma_entry_waits(config: ConfigModel, command: CommandModel, targets: Seq<TargetModel>)
    requires
        valid_config(config),
        names_are_distinct(config),
        selection_problem(config, targets) is None,
    ensures
        runs_what_is_selected(config, targets, file_of(config, command, targets), entry_name()),
{
    let file = file_of(config, command, targets);
    let nodes = generated_nodes(config, command, targets);
    let wanted = key_needs(config, targets, NodeKey::Entry);
    lemma_place(config, command, targets, NodeKey::Entry);
    let at = first_position(node_names(nodes), entry_name());
    assert(file[at].name == entry_name() && file[at].body is None);
    lemma_no_problem(targets.len() as int, target_problems(config, targets));
    assert forall|other: Seq<char>| #[trigger] needs(file, entry_name(), other) <==> {
        ||| exists|p: int|
            0 <= p < config.pipelines.len() && other == #[trigger] done_name(p)
                && targets.contains(TargetModel::Pipeline(config.pipelines[p].0))
        ||| exists|i: int, j: int|
            0 <= i < config.pipelines.len() && 0 <= j < config.pipelines[i].1.jobs.len() && other
                == #[trigger] job_name(i, j) && targets.contains(
                TargetModel::Job(config.pipelines[i].0, config.pipelines[i].1.jobs[j].0),
            )
    } by {
        lemma_needs_of(config, command, targets, NodeKey::Entry, other);
        if exists|k: int| 0 <= k < wanted.len() && key_name(#[trigger] wanted[k]) == other {
            let k = choose|k: int|
                0 <= k < wanted.len() && key_name(#[trigger] wanted[k]) == other;
            assert(target_problems(config, targets)(k) is None);
            assert(target_problem(config, targets[k]) is None);
            match targets[k] {
                TargetModel::Pipeline(name) => {
                    lemma_position(config.pipelines, name);
                    let p = position(config.pipelines, name);
                    assert(targets.contains(TargetModel::Pipeline(config.pipelines[p].0)));
                    assert(other == done_name(p));
                },
                TargetModel::Job(pipeline, job) => {
                    lemma_position(config.pipelines, pipeline);
                    let i = position(config.pipelines, pipeline);
                    lemma_position(config.pipelines[i].1.jobs, job);
                    let j = position(config.pipelines[i].1.jobs, job);
                    assert(targets.contains(
                        TargetModel::Job(config.pipelines[i].0, config.pipelines[i].1.jobs[j].0),
                    ));
                    assert(other == job_name(i, j));
                },
            }
        }
        if exists|p: int|
            0 <= p < config.pipelines.len() && other == #[trigger] done_name(p)
                && targets.contains(TargetModel::Pipeline(config.pipelines[p].0)) {
            let p = choose|p: int|
                0 <= p < config.pipelines.len() && other == #[trigger] done_name(p)
                    && targets.contains(TargetModel::Pipeline(config.pipelines[p].0));
            let k = choose|k: int|
                0 <= k < targets.len() && targets[k] == TargetModel::Pipeline(
                    config.pipelines[p].0,
                );
            lemma_found(config.pipelines, p);
            assert(key_name(wanted[k]) == other);
        }
        if exists|i: int, j: int|
            0 <= i < config.pipelines.len() && 0 <= j < config.pipelines[i].1.jobs.len() && other
                == #[trigger] job_name(i, j) && targets.contains(
                TargetModel::Job(config.pipelines[i].0, config.pipelines[i].1.jobs[j].0),
            ) {
            let (i, j) = choose|i: int, j: int|
                0 <= i < config.pipelines.len() && 0 <= j < config.pipelines[i].1.jobs.len()
                    && other == #[trigger] job_name(i, j) && targets.contains(
                    TargetModel::Job(config.pipelines[i].0, config.pipelines[i].1.jobs[j].0),
                );
            let target = TargetModel::Job(
                config.pipelines[i].0,
                config.pipelines[i].1.jobs[j].0,
            );
            let k = choose|k: int| 0 <= k < targets.len() && targets[k] == target;
            lemma_found(config.pipelines, i);
            assert(keys(config.pipelines[i].1.jobs).no_duplicates());
            lemma_found(config.pipelines[i].1.jobs, j);
            assert(key_name(wanted[k]) == other);
        }
    }
}

proof fn lemma_starts_jobs(
    config: ConfigModel,
    targets: Seq<TargetModel>,
    executable: Seq<u8>,
    justfile: Option<Seq<u8>>,
    directory: Seq<u8>,
    limit: JobLimit,
    no_deps: bool,
)
    ensures
        starts_every_job(
            config,
            file_of(
                config,
                command_settings(directory, executable, justfile, limit, no_deps),
                targets,
            ),
            job_words(executable, justfile, directory, limit, no_deps),
        ),
{
    let command = command_settings(directory, executable, justfile, limit, no_deps);
    let words = job_words(executable, justfile, directory, limit, no_deps);
    let nodes = generated_nodes(config, command, targets);
    let file = file_of(config, command, targets);
    lemma_generated(config, command, targets);
    generated_names_are_distinct(config, command, targets);
    assert forall|i: int, j: int|
        #![trigger job_name(i, j)]
        0 <= i < config.pipelines.len() && 0 <= j
            < config.pipelines[i].1.jobs.len() implies recipe_starts(
        file,
        job_name(i, j),
        words(config.pipelines[i].1.jobs[j].1.just),
    ) by {
        let target = config.pipelines[i].1.jobs[j].1.just;
        lemma_place(config, command, targets, NodeKey::Job(i, j));
        let m = first_position(node_names(nodes), job_name(i, j));
        lemma_command(command, target);
        lemma_invocation(executable, justfile, directory, limit, no_deps, target);
        assert(file[m] == as_read(nodes[m]));
        assert(starts(file[m], words(target)));
    }
    assert forall|m: int| 0 <= m < file.len() && (#[trigger] file[m]).body is Some implies is_job(
        config,
        file[m].name,
    ) by {
        let key = generated_keys(config)[m];
        assert(nodes[m] == key_node(config, command, targets, key));
        assert(key_exists(config, key));
        match key {
            NodeKey::Job(i, j) => {
                assert(file[m].name == job_name(i, j));
            },
            _ => {},
        }
    }
    assert forall|m: int, n: int| 0 <= m < n < file.len() implies (#[trigger] file[m]).name != (
    #[trigger] file[n]).name by {
        assert(node_names(nodes)[m] != node_names(nodes)[n]);
    }
}

/// The file makes Just do what a definition says: every job starts its own
/// target, the order is the declared one, and a run does what was selected.
pub open spec fn does_what_it_says(
    config: ConfigModel,
    targets: Seq<TargetModel>,
    words: spec_fn(Seq<char>) -> Seq<Seq<char>>,
    rendered: RenderedPipeline,
) -> bool {
    let file = recipes_in(rendered.contents@);
    &&& starts_every_job(config, file, words)
    &&& jobs_wait_as_declared(config, file)
    &&& pipelines_wait_as_declared(config, file)
    &&& runs_what_is_selected(config, targets, file, rendered.entrypoint@)
}

proof fn lemma_does_what_it_says(
    config: ConfigModel,
    targets: Seq<TargetModel>,
    executable: Seq<u8>,
    justfile: Option<Seq<u8>>,
    directory: Seq<u8>,
    limit: JobLimit,
    no_deps: bool,
    rendered: RenderedPipeline,
)
    requires
        valid_config(config),
        names_are_distinct(config),
        render_problem(config, targets, directory, executable, justfile) is None,
        rendered.contents@ == generated_text(
            config,
            command_settings(directory, executable, justfile, limit, no_deps),
            targets,
        ),
        rendered.entrypoint@ == entry_name(),
    ensures
        does_what_it_says(
            config,
            targets,
            job_words(executable, justfile, directory, limit, no_deps),
            rendered,
        ),
{
    let command = command_settings(directory, executable, justfile, limit, no_deps);
    let nodes = generated_nodes(config, command, targets);
    lemma_generated(config, command, targets);
    assert forall|m: int| 0 <= m < nodes.len() implies writable(#[trigger] nodes[m]) by {
        let key = generated_keys(config)[m];
        assert(nodes[m] == key_node(config, command, targets, key));
        assert(key_exists(config, key));
        lemma_node_is_writable(config, command, targets, key);
    }
    lemma_file_reads_back(nodes);
    lemma_starts_jobs(config, targets, executable, justfile, directory, limit, no_deps);
    lemma_jobs_wait(config, command, targets);
    lemma_entry_waits(config, command, targets);
    let file = file_of(config, command, targets);
    assert forall|i: int, other: Seq<char>|
        #![trigger needs(file, gate_name(i), other)]
        #![trigger needs(file, done_name(i), other)]
        0 <= i < config.pipelines.len() implies {
        &&& needs(file, gate_name(i), other) <==> exists|p: int|
            0 <= p < config.pipelines.len() && other == #[trigger] done_name(p)
                && config.pipelines[i].1.needs.contains(config.pipelines[p].0)
        &&& needs(file, done_name(i), other) <==> (config.pipelines[i].1.jobs.len() == 0 && other
            == gate_name(i)) || exists|j: int|
            0 <= j < config.pipelines[i].1.jobs.len() && other == #[trigger] job_name(i, j)
    } by {
        lemma_gate_waits(config, command, targets, i, other);
        lemma_done_waits(config, command, targets, i, other);
    }
}

/// A definition that is compiled makes Just do what the definition says, with
/// what the call was given.
pub proof fn compiled_definitions_do_what_they_say(
    config: &PipelineConfig,
    selection: &Selection,
    working_directory: &HostPath,
    just_executable: &HostPath,
    control_justfile: Option<&HostPath>,
    job_limit: JobLimit,
    no_deps: bool,
    rendered: RenderedPipeline,
)
    requires
        valid_config(config@),
        names_are_distinct(config@),
        call_ensures(
            PipelineConfig::render,
            (
                config,
                selection,
                working_directory,
                just_executable,
                control_justfile,
                job_limit,
                no_deps,
            ),
            Ok(rendered),
        ),
    ensures
        does_what_it_says(
            config@,
            selection@,
            job_words(
                just_executable@,
                path_view(control_justfile),
                working_directory@,
                job_limit,
                no_deps,
            ),
            rendered,
        ),
        rendered.working_directory@ == working_directory@,
{
    lemma_does_what_it_says(
        config@,
        selection@,
        just_executable@,
        path_view(control_justfile),
        working_directory@,
        job_limit,
        no_deps,
        rendered,
    );
}

/// A project compiles its own definition, with the Justfile that was found for
/// it, to run in the directory that the options name, or in its own.
pub proof fn projects_compile_their_definition(
    project: &Project,
    selection: &Selection,
    just_executable: &HostPath,
    options: &RunOptions,
    justfile: Option<Result<HostPath, DefinitionError>>,
    config: ConfigModel,
    rendered: RenderedPipeline,
)
    requires
        project@.config == Some(config),
        justfile is Some,
        valid_config(config),
        names_are_distinct(config),
        call_ensures(
            Project::prepare_selection,
            (project, selection, just_executable, options, justfile),
            Ok(rendered),
        ),
    ensures
        justfile->Some_0 is Ok,
        ({
            let directory = match options.working_directory {
                Some(path) => path@,
                None => project@.root,
            };
            &&& rendered.working_directory@ == directory
            &&& does_what_it_says(
                config,
                selection@,
                job_words(
                    just_executable@,
                    Some(justfile->Some_0->Ok_0@),
                    directory,
                    options.job_limit,
                    options.no_deps,
                ),
                rendered,
            )
        }),
{
    let directory = match options.working_directory {
        Some(path) => path@,
        None => project@.root,
    };
    lemma_does_what_it_says(
        config,
        selection@,
        just_executable@,
        Some(justfile->Some_0->Ok_0@),
        directory,
        options.job_limit,
        options.no_deps,
        rendered,
    );
}

/// Rendering without options of its own is for the project's own directory.
pub proof fn projects_render_for_their_own_directory(
    project: &Project,
    selection: &Selection,
    just_executable: &HostPath,
    job_limit: JobLimit,
    no_deps: bool,
    justfile: Option<Result<HostPath, DefinitionError>>,
    config: ConfigModel,
    rendered: RenderedPipeline,
)
    requires
        project@.config == Some(config),
        justfile is Some,
        valid_config(config),
        names_are_distinct(config),
        call_ensures(
            Project::render,
            (project, selection, just_executable, job_limit, no_deps, justfile),
            Ok(rendered),
        ),
    ensures
        justfile->Some_0 is Ok,
        rendered.working_directory@ == project@.root,
        does_what_it_says(
            config,
            selection@,
            job_words(
                just_executable@,
                Some(justfile->Some_0->Ok_0@),
                project@.root,
                job_limit,
                no_deps,
            ),
            rendered,
        ),
{
    lemma_does_what_it_says(
        config,
        selection@,
        just_executable@,
        Some(justfile->Some_0->Ok_0@),
        project@.root,
        job_limit,
        no_deps,
        rendered,
    );
}

} // verus!
