//! What is written for the shells: alias definitions, the wrapper function and the startup files.

use vstd::prelude::*;

use crate::error::{AliazError, Failure};
use crate::model::AliasInfo;
use crate::names;
use crate::rows;
use crate::store::Alias;
use crate::text;
use crate::text::{cat, cat3, chars_of, join};

verus! {

/// The shells that aliases are written for.
#[derive(Clone, Copy, Debug, PartialEq, Eq, Structural)]
pub enum Shell {
    Zsh,
    Bash,
    Fish,
}

/// The name of a shell.
pub open spec fn name_of(shell: Shell) -> Seq<char> {
    match shell {
        Shell::Zsh => "zsh"@,
        Shell::Bash => "bash"@,
        Shell::Fish => "fish"@,
    }
}

/// The name of a shell.
pub fn shell_name(shell: &Shell) -> (r: &'static str)
    ensures
        r@ == name_of(*shell),
{
    match shell {
        Shell::Zsh => "zsh",
        Shell::Bash => "bash",
        Shell::Fish => "fish",
    }
}

// ---------------------------------------------------------------------------
// Quoting
// ---------------------------------------------------------------------------
/// The text between the quotes: a quote ends the quotation, stands escaped, and begins it again.
pub open spec fn escaped(value: Seq<char>) -> Seq<char>
    decreases value.len(),
{
    if value.len() == 0 {
        Seq::empty()
    } else if value.last() == '\'' {
        escaped(value.drop_last()) + seq!['\'', '\\', '\'', '\'']
    } else {
        escaped(value.drop_last()).push(value.last())
    }
}

/// A text in single quotes.
pub open spec fn quoted(value: Seq<char>) -> Seq<char> {
    "'"@ + escaped(value) + "'"@
}

/// The text between the quotes for fish, which reads a backslash there: each one is written twice.
pub open spec fn fish_escaped(value: Seq<char>) -> Seq<char>
    decreases value.len(),
{
    if value.len() == 0 {
        Seq::empty()
    } else if value.last() == '\'' {
        fish_escaped(value.drop_last()) + seq!['\'', '\\', '\'', '\'']
    } else if value.last() == '\\' {
        fish_escaped(value.drop_last()) + seq!['\\', '\\']
    } else {
        fish_escaped(value.drop_last()).push(value.last())
    }
}

/// A text in single quotes for fish.
pub open spec fn fish_quoted(value: Seq<char>) -> Seq<char> {
    "'"@ + fish_escaped(value) + "'"@
}

/// A text in single quotes, as one word of a shell.
pub fn shell_quote(value: &str) -> (r: String)
    ensures
        r@ == quoted(value@),
{
    let chars = chars_of(value);
    let mut inner = String::new();
    for i in 0..chars.len()
        invariant
            chars@ == value@,
            inner@ == escaped(value@.take(i as int)),
    {
        let c = chars[i];
        assert(value@.take(i + 1).drop_last() =~= value@.take(i as int));
        if c == '\'' {
            let ghost before = inner@;
            inner.push('\'');
            inner.push('\\');
            inner.push('\'');
            inner.push('\'');
            assert(inner@ =~= before + seq!['\'', '\\', '\'', '\'']);
        } else {
            inner.push(c);
        }
    }
    assert(value@.take(value@.len() as int) =~= value@);
    cat3("'", inner.as_str(), "'")
}

/// A text in single quotes, as one word of fish.
pub fn fish_quote(value: &str) -> (r: String)
    ensures
        r@ == fish_quoted(value@),
{
    let chars = chars_of(value);
    let mut inner = String::new();
    for i in 0..chars.len()
        invariant
            chars@ == value@,
            inner@ == fish_escaped(value@.take(i as int)),
    {
        let c = chars[i];
        assert(value@.take(i + 1).drop_last() =~= value@.take(i as int));
        let ghost before = inner@;
        if c == '\'' {
            inner.push('\'');
            inner.push('\\');
            inner.push('\'');
            inner.push('\'');
            assert(inner@ =~= before + seq!['\'', '\\', '\'', '\'']);
        } else if c == '\\' {
            inner.push('\\');
            inner.push('\\');
            assert(inner@ =~= before + seq!['\\', '\\']);
        } else {
            inner.push(c);
        }
    }
    assert(value@.take(value@.len() as int) =~= value@);
    cat3("'", inner.as_str(), "'")
}

/// How many quotes a text holds.
pub open spec fn quote_count(value: Seq<char>) -> nat
    decreases value.len(),
{
    if value.len() == 0 {
        0
    } else if value.last() == '\'' {
        quote_count(value.drop_last()) + 1
    } else {
        quote_count(value.drop_last())
    }
}

proof fn lemma_escaped_length(value: Seq<char>)
    ensures
        escaped(value).len() == value.len() + 3 * quote_count(value),
    decreases value.len(),
{
    if value.len() > 0 {
        lemma_escaped_length(value.drop_last());
    }
}

/// A quoted text begins and ends with a quote, and is longer than the text by these two and by
/// three characters for each quote in it.
pub proof fn law_quoted_length(value: Seq<char>)
    ensures
        quoted(value)[0] == '\'',
        quoted(value).last() == '\'',
        quoted(value).len() == value.len() + 2 + 3 * quote_count(value),
{
    reveal_strlit("'");
    lemma_escaped_length(value);
}

/// Where a shell stands while it reads one word.
pub enum Reading {
    /// Outside of quotes.
    Plain,
    /// Outside of quotes, behind a backslash.
    Escape,
    /// Between single quotes.
    Quoted,
    /// Between single quotes, behind a backslash that may mean something. Only fish knows this.
    QuotedEscape,
    /// The text is not one word.
    Failed,
}

/// One step of reading a word: where the shell stands, and what it has read.
pub open spec fn read_one(fish: bool, at: (Reading, Seq<char>), c: char) -> (Reading, Seq<char>) {
    match at.0 {
        Reading::Plain => if c == '\'' {
            (Reading::Quoted, at.1)
        } else if c == '\\' {
            (Reading::Escape, at.1)
        } else {
            (Reading::Failed, at.1)
        },
        Reading::Escape => (Reading::Plain, at.1.push(c)),
        Reading::Quoted => if c == '\'' {
            (Reading::Plain, at.1)
        } else if fish && c == '\\' {
            (Reading::QuotedEscape, at.1)
        } else {
            (Reading::Quoted, at.1.push(c))
        },
        Reading::QuotedEscape => if c == '\'' || c == '\\' {
            (Reading::Quoted, at.1.push(c))
        } else {
            (Reading::Quoted, at.1.push('\\').push(c))
        },
        Reading::Failed => at,
    }
}

/// Reading the characters of a text one after the other.
pub open spec fn read_all(fish: bool, s: Seq<char>) -> (Reading, Seq<char>)
    decreases s.len(),
{
    if s.len() == 0 {
        (Reading::Plain, Seq::empty())
    } else {
        read_one(fish, read_all(fish, s.drop_last()), s.last())
    }
}

/// The word that a shell reads from a text in quotes and escapes, with nothing outside of them.
pub open spec fn word_read(fish: bool, s: Seq<char>) -> Option<Seq<char>> {
    match read_all(fish, s) {
        (Reading::Plain, word) => Some(word),
        _ => None,
    }
}

proof fn lemma_read_escaped(value: Seq<char>)
    ensures
        read_all(false, "'"@ + escaped(value)) == (Reading::Quoted, value),
    decreases value.len(),
{
    reveal_strlit("'");
    if value.len() == 0 {
        let s = "'"@ + escaped(value);
        assert(s =~= seq!['\'']);
        assert(s.drop_last() =~= Seq::<char>::empty());
        assert(value =~= Seq::<char>::empty());
        reveal_with_fuel(read_all, 2);
    } else {
        let before = value.drop_last();
        lemma_read_escaped(before);
        let s0 = "'"@ + escaped(before);
        let s = "'"@ + escaped(value);
        assert(before.push(value.last()) =~= value);
        if value.last() == '\'' {
            let s1 = s0.push('\'');
            let s2 = s1.push('\\');
            let s3 = s2.push('\'');
            let s4 = s3.push('\'');
            assert(s =~= s4);
            assert(s4.drop_last() =~= s3);
            assert(s3.drop_last() =~= s2);
            assert(s2.drop_last() =~= s1);
            assert(s1.drop_last() =~= s0);
            assert(read_all(false, s1) == (Reading::Plain, before));
            assert(read_all(false, s2) == (Reading::Escape, before));
            assert(read_all(false, s3) == (Reading::Plain, value));
            assert(read_all(false, s4) == (Reading::Quoted, value));
        } else {
            assert(s =~= s0.push(value.last()));
            assert(s.drop_last() =~= s0);
        }
    }
}

/// A POSIX shell reads a quoted text as that text, whatever it holds.
pub proof fn law_quoted_reads_back(value: Seq<char>)
    ensures
        word_read(false, quoted(value)) == Some(value),
{
    lemma_read_escaped(value);
    reveal_strlit("'");
    assert(quoted(value).drop_last() =~= "'"@ + escaped(value));
}

proof fn lemma_read_fish_escaped(value: Seq<char>)
    ensures
        read_all(true, "'"@ + fish_escaped(value)) == (Reading::Quoted, value),
    decreases value.len(),
{
    reveal_strlit("'");
    if value.len() == 0 {
        let s = "'"@ + fish_escaped(value);
        assert(s =~= seq!['\'']);
        assert(s.drop_last() =~= Seq::<char>::empty());
        assert(value =~= Seq::<char>::empty());
        reveal_with_fuel(read_all, 2);
    } else {
        let before = value.drop_last();
        lemma_read_fish_escaped(before);
        let s0 = "'"@ + fish_escaped(before);
        let s = "'"@ + fish_escaped(value);
        assert(before.push(value.last()) =~= value);
        if value.last() == '\'' {
            let s1 = s0.push('\'');
            let s2 = s1.push('\\');
            let s3 = s2.push('\'');
            let s4 = s3.push('\'');
            assert(s =~= s4);
            assert(s4.drop_last() =~= s3);
            assert(s3.drop_last() =~= s2);
            assert(s2.drop_last() =~= s1);
            assert(s1.drop_last() =~= s0);
            assert(read_all(true, s1) == (Reading::Plain, before));
            assert(read_all(true, s2) == (Reading::Escape, before));
            assert(read_all(true, s3) == (Reading::Plain, value));
            assert(read_all(true, s4) == (Reading::Quoted, value));
        } else if value.last() == '\\' {
            let s1 = s0.push('\\');
            let s2 = s1.push('\\');
            assert(s =~= s2);
            assert(s2.drop_last() =~= s1);
            assert(s1.drop_last() =~= s0);
            assert(read_all(true, s1) == (Reading::QuotedEscape, before));
        } else {
            assert(s =~= s0.push(value.last()));
            assert(s.drop_last() =~= s0);
        }
    }
}

/// Fish reads a text that was quoted for it as that text, whatever it holds.
pub proof fn law_quoted_reads_back_in_fish(value: Seq<char>)
    ensures
        word_read(true, fish_quoted(value)) == Some(value),
{
    lemma_read_fish_escaped(value);
    reveal_strlit("'");
    assert(fish_quoted(value).drop_last() =~= "'"@ + fish_escaped(value));
}

// ---------------------------------------------------------------------------
// Alias definitions
// ---------------------------------------------------------------------------
/// The definition of an alias.
pub open spec fn alias_line(shell: Shell, alias: AliasInfo) -> Seq<char> {
    if shell == Shell::Fish {
        "alias "@ + alias.name + " "@ + fish_quoted(alias.command)
    } else {
        "alias "@ + alias.name + "="@ + quoted(alias.command)
    }
}

/// How far a shell has read a line: where it stands, the words behind it, and the word that it is
/// in, if one was begun.
#[verifier::ext_equal]
pub struct LineReading {
    pub at: Reading,
    pub words: Seq<Seq<char>>,
    pub word: Seq<char>,
    pub begun: bool,
}

/// A character that means itself to every shell.
pub open spec fn means_itself(c: char) -> bool {
    names::name_char(c) || c == '='
}

/// One step of reading a line.
pub open spec fn read_line_one(fish: bool, s: LineReading, c: char) -> LineReading {
    if s.at is Plain && c == ' ' {
        LineReading {
            at: Reading::Plain,
            words: if s.begun {
                s.words.push(s.word)
            } else {
                s.words
            },
            word: Seq::empty(),
            begun: false,
        }
    } else if s.at is Plain && means_itself(c) {
        LineReading { word: s.word.push(c), begun: true, ..s }
    } else {
        let (at, word) = read_one(fish, (s.at, s.word), c);
        LineReading { at: at, words: s.words, word: word, begun: true }
    }
}

/// Reading the characters of a line one after the other.
pub open spec fn read_line(fish: bool, line: Seq<char>) -> LineReading
    decreases line.len(),
{
    if line.len() == 0 {
        LineReading {
            at: Reading::Plain,
            words: Seq::empty(),
            word: Seq::empty(),
            begun: false,
        }
    } else {
        read_line_one(fish, read_line(fish, line.drop_last()), line.last())
    }
}

/// The words that a shell reads from a line of plain characters, quotes and escapes.
pub open spec fn words_read(fish: bool, line: Seq<char>) -> Option<Seq<Seq<char>>> {
    let end = read_line(fish, line);
    if !(end.at is Plain) {
        None
    } else if end.begun {
        Some(end.words.push(end.word))
    } else {
        Some(end.words)
    }
}

proof fn lemma_read_plain(fish: bool, s: Seq<char>, t: Seq<char>)
    requires
        read_line(fish, s).at is Plain,
        forall|i: int| 0 <= i < t.len() ==> means_itself(#[trigger] t[i]),
        t.len() > 0,
    ensures
        read_line(fish, s + t) == (LineReading {
            word: read_line(fish, s).word + t,
            begun: true,
            ..read_line(fish, s)
        }),
    decreases t.len(),
{
    let before = t.drop_last();
    assert(means_itself(t[t.len() - 1]));
    assert((s + t).drop_last() =~= s + before);
    assert(read_line(fish, s).word + before.push(t.last()) =~= (read_line(fish, s).word
        + before).push(t.last()));
    assert(before.push(t.last()) =~= t);
    if before.len() > 0 {
        assert forall|i: int| 0 <= i < before.len() implies means_itself(#[trigger] before[i]) by {
            assert(before[i] == t[i]);
        }
        lemma_read_plain(fish, s, before);
    } else {
        assert(s + before =~= s);
        assert(read_line(fish, s).word + before =~= read_line(fish, s).word);
    }
}

/// The text between the quotes, for one shell or the other.
spec fn escaped_for(fish: bool, value: Seq<char>) -> Seq<char> {
    if fish {
        fish_escaped(value)
    } else {
        escaped(value)
    }
}

proof fn lemma_read_line_escaped(fish: bool, s: Seq<char>, value: Seq<char>)
    requires
        read_line(fish, s).at is Quoted,
        read_line(fish, s).begun,
    ensures
        read_line(fish, s + escaped_for(fish, value)) == (LineReading {
            word: read_line(fish, s).word + value,
            ..read_line(fish, s)
        }),
    decreases value.len(),
{
    let start = read_line(fish, s);
    if value.len() == 0 {
        assert(s + escaped_for(fish, value) =~= s);
        assert(start.word + value =~= start.word);
    } else {
        let before = value.drop_last();
        let c = value.last();
        lemma_read_line_escaped(fish, s, before);
        let s0 = s + escaped_for(fish, before);
        let whole = s + escaped_for(fish, value);
        let word = start.word + before;
        assert(before.push(c) =~= value);
        assert(word.push(c) =~= start.word + value);
        if c == '\'' {
            let s1 = s0.push('\'');
            let s2 = s1.push('\\');
            let s3 = s2.push('\'');
            let s4 = s3.push('\'');
            assert(whole =~= s4);
            assert(s4.drop_last() =~= s3);
            assert(s3.drop_last() =~= s2);
            assert(s2.drop_last() =~= s1);
            assert(s1.drop_last() =~= s0);
            assert(read_line(fish, s1) == (LineReading { at: Reading::Plain, word: word, ..start }));
            assert(read_line(fish, s2) == (LineReading { at: Reading::Escape, word: word, ..start }));
            assert(read_line(fish, s3) == (LineReading {
                at: Reading::Plain,
                word: word.push(c),
                ..start
            }));
        } else if fish && c == '\\' {
            let s1 = s0.push('\\');
            let s2 = s1.push('\\');
            assert(whole =~= s2);
            assert(s2.drop_last() =~= s1);
            assert(s1.drop_last() =~= s0);
            assert(read_line(fish, s1) == (LineReading {
                at: Reading::QuotedEscape,
                word: word,
                ..start
            }));
        } else {
            assert(whole =~= s0.push(c));
            assert(whole.drop_last() =~= s0);
        }
    }
}

proof fn lemma_read_line_quoted(fish: bool, s: Seq<char>, value: Seq<char>)
    requires
        read_line(fish, s).at is Plain,
    ensures
        read_line(fish, s + ("'"@ + escaped_for(fish, value) + "'"@)) == (LineReading {
            word: read_line(fish, s).word + value,
            begun: true,
            ..read_line(fish, s)
        }),
{
    reveal_strlit("'");
    let opened = s.push('\'');
    assert(opened.drop_last() =~= s);
    assert(read_line(fish, opened) == (LineReading {
        at: Reading::Quoted,
        begun: true,
        ..read_line(fish, s)
    }));
    lemma_read_line_escaped(fish, opened, value);
    let whole = s + ("'"@ + escaped_for(fish, value) + "'"@);
    assert(whole.drop_last() =~= opened + escaped_for(fish, value));
    assert(whole.last() == '\'');
}

proof fn lemma_read_alias_word(fish: bool)
    ensures
        read_line(fish, "alias "@) == (LineReading {
            at: Reading::Plain,
            words: seq!["alias"@],
            word: Seq::empty(),
            begun: false,
        }),
{
    reveal_strlit("alias ");
    reveal_strlit("alias");
    let none = Seq::<char>::empty();
    lemma_read_plain(fish, none, "alias"@);
    assert(none + "alias"@ =~= "alias"@);
    assert("alias "@.drop_last() =~= "alias"@);
    assert(Seq::<Seq<char>>::empty().push("alias"@) =~= seq!["alias"@]);
}

proof fn lemma_read_definition(alias: AliasInfo)
    requires
        names::valid_name(alias.name),
    ensures
        read_line(false, alias_line(Shell::Zsh, alias)) == (LineReading {
            at: Reading::Plain,
            words: seq!["alias"@],
            word: alias.name + "="@ + alias.command,
            begun: true,
        }),
{
    let head = "alias "@;
    let name = alias.name;
    let start = name + "="@;
    reveal_strlit("=");
    lemma_read_alias_word(false);
    assert forall|i: int| 0 <= i < start.len() implies means_itself(#[trigger] start[i]) by {
        if i < name.len() {
            assert(start[i] == name[i]);
            assert(names::name_char(name[i]));
        }
    }
    lemma_read_plain(false, head, start);
    assert(Seq::<char>::empty() + start =~= start);
    lemma_read_line_quoted(false, head + start, alias.command);
    assert(alias_line(Shell::Zsh, alias) =~= (head + start) + quoted(alias.command));
}

proof fn lemma_read_fish_definition(alias: AliasInfo)
    requires
        names::valid_name(alias.name),
    ensures
        read_line(true, alias_line(Shell::Fish, alias)) == (LineReading {
            at: Reading::Plain,
            words: seq!["alias"@].push(alias.name),
            word: alias.command,
            begun: true,
        }),
{
    let head = "alias "@;
    let name = alias.name;
    let none = Seq::<char>::empty();
    reveal_strlit(" ");
    lemma_read_alias_word(true);
    assert forall|i: int| 0 <= i < name.len() implies means_itself(#[trigger] name[i]) by {
        assert(names::name_char(name[i]));
    }
    lemma_read_plain(true, head, name);
    assert(none + name =~= name);
    let spaced = (head + name).push(' ');
    assert(spaced.drop_last() =~= head + name);
    assert(read_line(true, spaced) == (LineReading {
        at: Reading::Plain,
        words: seq!["alias"@].push(name),
        word: none,
        begun: false,
    }));
    lemma_read_line_quoted(true, spaced, alias.command);
    assert(none + alias.command =~= alias.command);
    assert(alias_line(Shell::Fish, alias) =~= spaced + fish_quoted(alias.command));
}

/// Zsh and bash read the definition of an alias as two words, the second with the name and the
/// command; fish reads it as three, with the name and the command apart. The command is read as it
/// is, whatever it holds.
pub proof fn law_definition_is_read(alias: AliasInfo)
    requires
        names::valid_name(alias.name),
    ensures
        words_read(false, alias_line(Shell::Zsh, alias)) == Some(
            seq!["alias"@, alias.name + "="@ + alias.command],
        ),
        words_read(false, alias_line(Shell::Bash, alias)) == Some(
            seq!["alias"@, alias.name + "="@ + alias.command],
        ),
        words_read(true, alias_line(Shell::Fish, alias)) == Some(
            seq!["alias"@, alias.name, alias.command],
        ),
{
    lemma_read_definition(alias);
    lemma_read_fish_definition(alias);
    let entry = alias.name + "="@ + alias.command;
    assert(alias_line(Shell::Bash, alias) == alias_line(Shell::Zsh, alias));
    assert(seq!["alias"@].push(entry) =~= seq!["alias"@, entry]);
    assert(seq!["alias"@].push(alias.name).push(alias.command) =~= seq![
        "alias"@,
        alias.name,
        alias.command,
    ]);
}

/// The definitions of aliases, in their order.
pub open spec fn alias_lines(shell: Shell, aliases: Seq<AliasInfo>) -> Seq<Seq<char>> {
    aliases.map_values(|alias: AliasInfo| alias_line(shell, alias))
}

/// The definitions of aliases, in their order.
pub fn shell_alias_lines(shell: &Shell, aliases: &Vec<Alias>) -> (r: Vec<String>)
    ensures
        text::texts(r@) == alias_lines(*shell, rows::recs(aliases@)),
{
    let ghost want = alias_lines(*shell, rows::recs(aliases@));
    let mut out: Vec<String> = Vec::new();
    for i in 0..aliases.len()
        invariant
            want == alias_lines(*shell, rows::recs(aliases@)),
            text::texts(out@) =~= want.take(i as int),
    {
        let alias = &aliases[i];
        let (mid, command) = match shell {
            Shell::Fish => (" ", fish_quote(alias.command.as_str())),
            _ => ("=", shell_quote(alias.command.as_str())),
        };
        let start = cat3("alias ", alias.name.as_str(), mid);
        let line = cat(start.as_str(), command.as_str());
        assert(rows::recs(aliases@)[i as int] == alias@);
        assert(line@ == want[i as int]);
        let ghost before = text::texts(out@);
        out.push(line);
        assert(text::texts(out@) =~= before.push(want[i as int]));
    }
    assert(want.take(want.len() as int) =~= want);
    out
}

// ---------------------------------------------------------------------------
// The managed files
// ---------------------------------------------------------------------------
/// The wrapper function for zsh and bash.
pub open spec fn sh_wrapper(binary: Seq<char>, source_command: Seq<char>) -> Seq<Seq<char>> {
    seq![
        "# Managed by Aliaz. Do not edit."@,
        "__aliaz_bin="@ + quoted(binary),
        "aliaz() {"@,
        "  local __aliaz_status"@,
        "  local __aliaz_shell"@,
        "  local __aliaz_selected_command"@,
        "  if [ \"${1:-}\" = \"select\" ]; then"@,
        "    __aliaz_selected_command=$(\"$__aliaz_bin\" select --print-command \"${@:2}\")"@,
        "    __aliaz_status=$?"@,
        "    if [ $__aliaz_status -eq 0 ] && [ -n \"$__aliaz_selected_command\" ]; then"@,
        "      eval \"$__aliaz_selected_command\""@,
        "      return $?"@,
        "    fi"@,
        "    return $__aliaz_status"@,
        "  fi"@,
        "  \"$__aliaz_bin\" \"$@\""@,
        "  __aliaz_status=$?"@,
        "  if [ $__aliaz_status -eq 0 ]; then"@,
        "    case \"${1:-}\" in"@,
        "      add|edit|rm|delete|collection|migrate|import|sync)"@,
        "        __aliaz_shell=\"\""@,
        "        if [ -n \"${ZSH_VERSION:-}\" ]; then"@,
        "          __aliaz_shell=\"zsh\""@,
        "        elif [ -n \"${BASH_VERSION:-}\" ]; then"@,
        "          __aliaz_shell=\"bash\""@,
        "        fi"@,
        "        if [ -n \"$__aliaz_shell\" ]; then"@,
        "          \"$__aliaz_bin\" init \"$__aliaz_shell\" >/dev/null && "@ + source_command,
        "        fi"@,
        "        ;;"@,
        "    esac"@,
        "  fi"@,
        "  return $__aliaz_status"@,
        "}"@,
        ""@,
    ]
}

/// The wrapper function for zsh and bash.
pub fn sh_wrapper_lines(binary: &str, source_command: &str) -> (r: Vec<String>)
    ensures
        text::texts(r@) == sh_wrapper(binary@, source_command@),
{
    let quoted_binary = shell_quote(binary);
    let out = vec![
        "# Managed by Aliaz. Do not edit.".to_owned(),
        cat("__aliaz_bin=", quoted_binary.as_str()),
        "aliaz() {".to_owned(),
        "  local __aliaz_status".to_owned(),
        "  local __aliaz_shell".to_owned(),
        "  local __aliaz_selected_command".to_owned(),
        "  if [ \"${1:-}\" = \"select\" ]; then".to_owned(),
        "    __aliaz_selected_command=$(\"$__aliaz_bin\" select --print-command \"${@:2}\")".to_owned(),
        "    __aliaz_status=$?".to_owned(),
        "    if [ $__aliaz_status -eq 0 ] && [ -n \"$__aliaz_selected_command\" ]; then".to_owned(),
        "      eval \"$__aliaz_selected_command\"".to_owned(),
        "      return $?".to_owned(),
        "    fi".to_owned(),
        "    return $__aliaz_status".to_owned(),
        "  fi".to_owned(),
        "  \"$__aliaz_bin\" \"$@\"".to_owned(),
        "  __aliaz_status=$?".to_owned(),
        "  if [ $__aliaz_status -eq 0 ]; then".to_owned(),
        "    case \"${1:-}\" in".to_owned(),
        "      add|edit|rm|delete|collection|migrate|import|sync)".to_owned(),
        "        __aliaz_shell=\"\"".to_owned(),
        "        if [ -n \"${ZSH_VERSION:-}\" ]; then".to_owned(),
        "          __aliaz_shell=\"zsh\"".to_owned(),
        "        elif [ -n \"${BASH_VERSION:-}\" ]; then".to_owned(),
        "          __aliaz_shell=\"bash\"".to_owned(),
        "        fi".to_owned(),
        "        if [ -n \"$__aliaz_shell\" ]; then".to_owned(),
        cat("          \"$__aliaz_bin\" init \"$__aliaz_shell\" >/dev/null && ", source_command),
        "        fi".to_owned(),
        "        ;;".to_owned(),
        "    esac".to_owned(),
        "  fi".to_owned(),
        "  return $__aliaz_status".to_owned(),
        "}".to_owned(),
        "".to_owned(),
    ];
    assert(text::texts(out@) =~= sh_wrapper(binary@, source_command@));
    out
}

/// The wrapper function for fish.
pub open spec fn fish_wrapper(binary: Seq<char>, path: Seq<char>) -> Seq<Seq<char>> {
    seq![
        "# Managed by Aliaz. Do not edit."@,
        "set -g __aliaz_bin "@ + fish_quoted(binary),
        "function aliaz"@,
        "  if test (count $argv) -gt 0; and test $argv[1] = select"@,
        "    set -l __aliaz_selected_command (\"$__aliaz_bin\" select --print-command $argv[2..-1])"@,
        "    set -l __aliaz_status $status"@,
        "    if test $__aliaz_status -eq 0; and test -n \"$__aliaz_selected_command\""@,
        "      eval \"$__aliaz_selected_command\""@,
        "      return $status"@,
        "    end"@,
        "    return $__aliaz_status"@,
        "  end"@,
        "  \"$__aliaz_bin\" $argv"@,
        "  set -l __aliaz_status $status"@,
        "  if test $__aliaz_status -eq 0"@,
        "    switch $argv[1]"@,
        "      case add edit rm delete collection migrate import sync"@,
        "        \"$__aliaz_bin\" init fish >/dev/null"@,
        "        source "@ + fish_quoted(path),
        "    end"@,
        "  end"@,
        "  return $__aliaz_status"@,
        "end"@,
        ""@,
    ]
}

/// The wrapper function for fish.
pub fn fish_wrapper_lines(binary: &str, path: &str) -> (r: Vec<String>)
    ensures
        text::texts(r@) == fish_wrapper(binary@, path@),
{
    let quoted_binary = fish_quote(binary);
    let quoted_path = fish_quote(path);
    let out = vec![
        "# Managed by Aliaz. Do not edit.".to_owned(),
        cat("set -g __aliaz_bin ", quoted_binary.as_str()),
        "function aliaz".to_owned(),
        "  if test (count $argv) -gt 0; and test $argv[1] = select".to_owned(),
        "    set -l __aliaz_selected_command (\"$__aliaz_bin\" select --print-command $argv[2..-1])".to_owned(),
        "    set -l __aliaz_status $status".to_owned(),
        "    if test $__aliaz_status -eq 0; and test -n \"$__aliaz_selected_command\"".to_owned(),
        "      eval \"$__aliaz_selected_command\"".to_owned(),
        "      return $status".to_owned(),
        "    end".to_owned(),
        "    return $__aliaz_status".to_owned(),
        "  end".to_owned(),
        "  \"$__aliaz_bin\" $argv".to_owned(),
        "  set -l __aliaz_status $status".to_owned(),
        "  if test $__aliaz_status -eq 0".to_owned(),
        "    switch $argv[1]".to_owned(),
        "      case add edit rm delete collection migrate import sync".to_owned(),
        "        \"$__aliaz_bin\" init fish >/dev/null".to_owned(),
        cat("        source ", quoted_path.as_str()),
        "    end".to_owned(),
        "  end".to_owned(),
        "  return $__aliaz_status".to_owned(),
        "end".to_owned(),
        "".to_owned(),
    ];
    assert(text::texts(out@) =~= fish_wrapper(binary@, path@));
    out
}

/// The word by which a shell finds the managed file: from the home directory where the file is in
/// its usual place there, or else its path in quotes.
pub open spec fn source_path_token(usual: bool, path: Seq<char>) -> Seq<char> {
    if usual {
        "\"$HOME/.config/aliaz/aliases.sh\""@
    } else {
        quoted(path)
    }
}

/// The word by which a shell finds the managed file. `usual` says that `path` is the path of
/// `aliases.sh` in its usual place in the home directory.
pub fn sh_source_path_token(usual: bool, path: &str) -> (r: String)
    ensures
        r@ == source_path_token(usual, path@),
{
    if usual {
        "\"$HOME/.config/aliaz/aliases.sh\"".to_owned()
    } else {
        shell_quote(path)
    }
}

/// The command that reads the managed file.
pub fn sh_source_command(usual: bool, path: &str) -> (r: String)
    ensures
        r@ == "source "@ + source_path_token(usual, path@),
{
    let token = sh_source_path_token(usual, path);
    cat("source ", token.as_str())
}

/// The managed file: the wrapper function, then the aliases.
pub open spec fn integration_file(
    shell: Shell,
    aliases: Seq<AliasInfo>,
    binary: Seq<char>,
    usual: bool,
    path: Seq<char>,
) -> Seq<char> {
    let wrapper = if shell == Shell::Fish {
        fish_wrapper(binary, path)
    } else {
        sh_wrapper(binary, "source "@ + source_path_token(usual, path))
    };
    text::joined(wrapper + alias_lines(shell, aliases), "\n"@) + "\n"@
}

/// The contents of the managed file at `path`. The path of the program has to be text.
pub fn shell_integration_contents(
    shell: &Shell,
    aliases: &Vec<Alias>,
    binary: Option<&str>,
    usual: bool,
    path: &str,
) -> (r: Result<String, AliazError>)
    ensures
        match binary {
            Some(b) => r matches Ok(contents) && contents@ == integration_file(
                *shell,
                rows::recs(aliases@),
                b@,
                usual,
                path@,
            ),
            None => r matches Err(e) && e@ == Failure::BinaryPathNotUtf8,
        },
{
    let binary = match binary {
        Some(binary) => binary,
        None => {
            return Err(AliazError::BinaryPathNotUtf8);
        },
    };
    let mut all = match shell {
        Shell::Fish => fish_wrapper_lines(binary, path),
        _ => {
            let source_command = sh_source_command(usual, path);
            sh_wrapper_lines(binary, source_command.as_str())
        },
    };
    let ghost wrapper = text::texts(all@);
    let mut definitions = shell_alias_lines(shell, aliases);
    let ghost rest = text::texts(definitions@);
    all.append(&mut definitions);
    assert(text::texts(all@) =~= wrapper + rest);
    let body = join(&all, "\n");
    Ok(cat(body.as_str(), "\n"))
}

// ---------------------------------------------------------------------------
// Piece by piece
// ---------------------------------------------------------------------------
/// A text is escaped character by character: for zsh and bash a quote alone changes, for fish a
/// backslash too.
pub proof fn law_escaped(a: Seq<char>, c: char, b: Seq<char>)
    ensures
        escaped(a + b) == escaped(a) + escaped(b),
        fish_escaped(a + b) == fish_escaped(a) + fish_escaped(b),
        escaped(seq![c]) == if c == '\'' {
            seq!['\'', '\\', '\'', '\'']
        } else {
            seq![c]
        },
        fish_escaped(seq![c]) == if c == '\'' {
            seq!['\'', '\\', '\'', '\'']
        } else if c == '\\' {
            seq!['\\', '\\']
        } else {
            seq![c]
        },
    decreases b.len(),
{
    let none = Seq::<char>::empty();
    reveal_with_fuel(escaped, 2);
    reveal_with_fuel(fish_escaped, 2);
    assert(seq![c].drop_last() =~= none);
    assert(escaped(none) =~= none);
    assert(fish_escaped(none) =~= none);
    assert(escaped(seq![c]) =~= if c == '\'' {
        seq!['\'', '\\', '\'', '\'']
    } else {
        seq![c]
    });
    assert(fish_escaped(seq![c]) =~= if c == '\'' {
        seq!['\'', '\\', '\'', '\'']
    } else if c == '\\' {
        seq!['\\', '\\']
    } else {
        seq![c]
    });
    if b.len() == 0 {
        assert(a + b =~= a);
        assert(escaped(a + b) =~= escaped(a) + escaped(b));
        assert(fish_escaped(a + b) =~= fish_escaped(a) + fish_escaped(b));
    } else {
        assert((a + b).drop_last() =~= a + b.drop_last());
        assert((a + b).last() == b.last());
        law_escaped(a, c, b.drop_last());
        assert(escaped(a + b) =~= escaped(a) + escaped(b));
        assert(fish_escaped(a + b) =~= fish_escaped(a) + fish_escaped(b));
    }
}

/// Different texts are quoted differently.
pub proof fn law_quoted_differ(a: Seq<char>, b: Seq<char>)
    ensures
        quoted(a) == quoted(b) ==> a == b,
        fish_quoted(a) == fish_quoted(b) ==> a == b,
{
    law_quoted_reads_back(a);
    law_quoted_reads_back(b);
    law_quoted_reads_back_in_fish(a);
    law_quoted_reads_back_in_fish(b);
}

/// Each alias has its definition, in the order of the aliases.
pub proof fn law_alias_lines(shell: Shell, a: Seq<AliasInfo>, b: Seq<AliasInfo>, i: int)
    ensures
        alias_lines(shell, a).len() == a.len(),
        0 <= i < a.len() ==> alias_lines(shell, a)[i] == alias_line(shell, a[i]),
        alias_lines(shell, a + b) == alias_lines(shell, a) + alias_lines(shell, b),
{
    assert(alias_lines(shell, a + b) =~= alias_lines(shell, a) + alias_lines(shell, b));
}

/// One more alias is one more line at the end of the managed file, and nothing else changes in it.
pub proof fn law_integration_file_grows(
    shell: Shell,
    aliases: Seq<AliasInfo>,
    alias: AliasInfo,
    binary: Seq<char>,
    usual: bool,
    path: Seq<char>,
)
    ensures
        integration_file(shell, aliases.push(alias), binary, usual, path) == integration_file(
            shell,
            aliases,
            binary,
            usual,
            path,
        ) + alias_line(shell, alias) + seq!['\n'],
{
    let wrapper = if shell == Shell::Fish {
        fish_wrapper(binary, path)
    } else {
        sh_wrapper(binary, "source "@ + source_path_token(usual, path))
    };
    reveal_strlit("\n");
    assert("\n"@ =~= seq!['\n']);
    assert(wrapper.len() > 0);
    let lines = wrapper + alias_lines(shell, aliases);
    let line = alias_line(shell, alias);
    assert(alias_lines(shell, aliases.push(alias)) =~= alias_lines(shell, aliases).push(line));
    let more = wrapper + alias_lines(shell, aliases.push(alias));
    assert(more =~= lines + seq![line]);
    text::law_joined(lines, seq![line], "\n"@);
    text::law_joined(seq![line], seq![line], "\n"@);
    assert(integration_file(shell, aliases.push(alias), binary, usual, path) =~= integration_file(
        shell,
        aliases,
        binary,
        usual,
        path,
    ) + line + seq!['\n']);
}

/// The wrapper function runs the program that it was made for: the shell reads its path as it is,
/// whatever it holds.
pub proof fn law_wrapper_finds_program(binary: Seq<char>, path: Seq<char>, command: Seq<char>)
    ensures
        exists|word: Seq<char>|
            word_read(false, word) == Some(binary) && sh_wrapper(binary, command)[1]
                == #[trigger] ("__aliaz_bin="@ + word),
        exists|word: Seq<char>|
            word_read(true, word) == Some(binary) && fish_wrapper(binary, path)[1]
                == #[trigger] ("set -g __aliaz_bin "@ + word),
        exists|i: int, start: Seq<char>|
            0 <= i < sh_wrapper(binary, command).len() && #[trigger] sh_wrapper(binary, command)[i]
                == #[trigger] (start + command),
        exists|i: int, start: Seq<char>, word: Seq<char>|
            0 <= i < fish_wrapper(binary, path).len() && word_read(true, word) == Some(path)
                && #[trigger] fish_wrapper(binary, path)[i] == #[trigger] (start + word),
{
    law_quoted_reads_back(binary);
    law_quoted_reads_back_in_fish(binary);
    law_quoted_reads_back_in_fish(path);
    let sh = sh_wrapper(binary, command);
    let fish = fish_wrapper(binary, path);
    assert(sh[1] == "__aliaz_bin="@ + quoted(binary));
    assert(fish[1] == "set -g __aliaz_bin "@ + fish_quoted(binary));
    assert(sh[27] == "          \"$__aliaz_bin\" init \"$__aliaz_shell\" >/dev/null && "@ + command);
    assert(fish[18] == "        source "@ + fish_quoted(path));
}

/// The managed file is read from its usual place by way of the home directory, and from any other
/// place by its path, which the shell reads as it is.
pub proof fn law_source_path(path: Seq<char>)
    ensures
        word_read(false, source_path_token(false, path)) == Some(path),
        source_path_token(true, path) == "\"$HOME/.config/aliaz/aliases.sh\""@,
{
    law_quoted_reads_back(path);
}

/// A definition is the word `alias`, the name and the command in quotes: behind an equals sign for
/// zsh and bash, behind a space for fish.
pub proof fn law_alias_line_text(alias: AliasInfo)
    ensures
        alias_line(Shell::Zsh, alias) == "alias "@ + alias.name + "='"@ + escaped(alias.command)
            + "'"@,
        alias_line(Shell::Bash, alias) == alias_line(Shell::Zsh, alias),
        alias_line(Shell::Fish, alias) == "alias "@ + alias.name + " '"@ + fish_escaped(
            alias.command,
        ) + "'"@,
{
    reveal_strlit("=");
    reveal_strlit("'");
    reveal_strlit(" ");
    reveal_strlit("='");
    reveal_strlit(" '");
    assert("='"@ =~= "="@ + "'"@);
    assert(" '"@ =~= " "@ + "'"@);
    assert(alias_line(Shell::Zsh, alias) =~= "alias "@ + alias.name + "='"@ + escaped(alias.command)
        + "'"@);
    assert(alias_line(Shell::Fish, alias) =~= "alias "@ + alias.name + " '"@ + fish_escaped(
        alias.command,
    ) + "'"@);
}

/// The wrapper runs the program with the words that it is given and ends with the program's status.
/// After each command that changes aliases it has the managed file written anew and reads it. What
/// was selected is run in the shell itself.
pub proof fn law_wrapper_renews(binary: Seq<char>, path: Seq<char>, command: Seq<char>)
    ensures
        ({
            let sh = sh_wrapper(binary, command);
            &&& sh[2] == "aliaz() {"@
            &&& sh[6] == "  if [ \"${1:-}\" = \"select\" ]; then"@
            &&& sh[7]
                == "    __aliaz_selected_command=$(\"$__aliaz_bin\" select --print-command \"${@:2}\")"@
            &&& sh[8] == "    __aliaz_status=$?"@
            &&& sh[10] == "      eval \"$__aliaz_selected_command\""@
            &&& sh[15] == "  \"$__aliaz_bin\" \"$@\""@
            &&& sh[16] == "  __aliaz_status=$?"@
            &&& sh[17] == "  if [ $__aliaz_status -eq 0 ]; then"@
            &&& sh[19] == "      add|edit|rm|delete|collection|migrate|import|sync)"@
            &&& sh[32] == "  return $__aliaz_status"@
            &&& sh[33] == "}"@
        }),
        ({
            let fish = fish_wrapper(binary, path);
            &&& fish[2] == "function aliaz"@
            &&& fish[3] == "  if test (count $argv) -gt 0; and test $argv[1] = select"@
            &&& fish[4]
                == "    set -l __aliaz_selected_command (\"$__aliaz_bin\" select --print-command $argv[2..-1])"@
            &&& fish[7] == "      eval \"$__aliaz_selected_command\""@
            &&& fish[12] == "  \"$__aliaz_bin\" $argv"@
            &&& fish[13] == "  set -l __aliaz_status $status"@
            &&& fish[14] == "  if test $__aliaz_status -eq 0"@
            &&& fish[16] == "      case add edit rm delete collection migrate import sync"@
            &&& fish[17] == "        \"$__aliaz_bin\" init fish >/dev/null"@
            &&& fish[21] == "  return $__aliaz_status"@
            &&& fish[22] == "end"@
        }),
{
}

/// Without aliases the managed file is the wrapper of its shell alone, each line ended: the one for
/// zsh and bash reads the file by its source command, the one for fish by its path.
pub proof fn law_integration_file_begins(
    shell: Shell,
    binary: Seq<char>,
    usual: bool,
    path: Seq<char>,
)
    ensures
        integration_file(shell, Seq::empty(), binary, usual, path) == text::joined(
            if shell == Shell::Fish {
                fish_wrapper(binary, path)
            } else {
                sh_wrapper(binary, "source "@ + source_path_token(usual, path))
            },
            seq!['\n'],
        ) + seq!['\n'],
        sh_wrapper(binary, path).len() == 35,
        fish_wrapper(binary, path).len() == 24,
{
    reveal_strlit("\n");
    assert("\n"@ =~= seq!['\n']);
    let wrapper = if shell == Shell::Fish {
        fish_wrapper(binary, path)
    } else {
        sh_wrapper(binary, "source "@ + source_path_token(usual, path))
    };
    assert(wrapper + alias_lines(shell, Seq::empty()) =~= wrapper);
}

} // verus!
