//! Aliases in the startup file of a shell.

use vstd::prelude::*;

use crate::clock;
use crate::clock::{now_unix, Clock};
use crate::error::{AliazError, Failure};
use crate::model::AliasInfo;
use crate::names;
use crate::names::{
    default_collection_id,
    default_collection_name,
    validate_name,
    DEFAULT_COLLECTION_ID,
    DEFAULT_COLLECTION_NAME,
};
use crate::outside;
use crate::outside::{random_uuid, split_words};
use crate::rows;
use crate::shell;
use crate::shell::Shell;
use crate::store::Alias;
use crate::text;
use crate::text::{begins_with, lines, split_first, strip_prefixes, trim};

verus! {

/// A name and a command.
pub type Pair = (Seq<char>, Seq<char>);

/// What stands before the first `c`.
pub open spec fn before_first(s: Seq<char>, c: char) -> Seq<char>
    decreases s.len(),
{
    if s.len() == 0 || s[0] == c {
        Seq::empty()
    } else {
        seq![s[0]] + before_first(s.skip(1), c)
    }
}

/// The name before and the command behind the first equals sign.
pub open spec fn pair_of(entry: Seq<char>) -> Pair {
    let name = before_first(entry, '=');
    (name, entry.skip(name.len() as int + 1))
}

/// The aliases that the words behind `alias` define, up to the first that is refused. A word
/// without an equals sign defines none.
pub open spec fn pairs_in_entries(entries: Seq<Seq<char>>, now: Option<i64>) -> Result<
    Seq<Pair>,
    Failure,
>
    decreases entries.len(),
{
    if entries.len() == 0 {
        Ok(Seq::empty())
    } else {
        match pairs_in_entries(entries.drop_last(), now) {
            Err(f) => Err(f),
            Ok(pairs) => {
                let entry = entries.last();
                if !entry.contains('=') {
                    Ok(pairs)
                } else if !names::valid_name(pair_of(entry).0) {
                    Err(Failure::InvalidName(pair_of(entry).0))
                } else if now is None {
                    Err(Failure::ClockBeforeEpoch)
                } else {
                    Ok(pairs.push(pair_of(entry)))
                }
            },
        }
    }
}

/// The aliases that a line defines.
pub open spec fn pairs_in_line(line: Seq<char>, now: Option<i64>) -> Result<Seq<Pair>, Failure> {
    let trimmed = text::trimmed(line);
    if !text::has_prefix(trimmed, "alias "@) {
        Ok(Seq::empty())
    } else {
        match outside::shell_words(
            text::trimmed(text::without_prefixes(trimmed, "alias "@)),
        ) {
            Some(entries) => pairs_in_entries(entries, now),
            None => Err(Failure::UnparsableAliasLine(trimmed)),
        }
    }
}

/// Only lines that start with `alias ` define anything: a line that is commented out does not.
pub proof fn law_other_lines_define_nothing(line: Seq<char>, now: Option<i64>)
    requires
        !text::has_prefix(text::trimmed(line), "alias "@) || text::trimmed(line)[0] == '#',
    ensures
        pairs_in_line(line, now) == Ok::<Seq<Pair>, Failure>(Seq::empty()),
{
    reveal_strlit("alias ");
    let trimmed = text::trimmed(line);
    if text::has_prefix(trimmed, "alias "@) {
        assert(trimmed.take(6)[0] == 'a');
    }
}

/// The aliases that lines define, up to the first that is refused.
pub open spec fn pairs_in_lines(all: Seq<Seq<char>>, now: Option<i64>) -> Result<Seq<Pair>, Failure>
    decreases all.len(),
{
    if all.len() == 0 {
        Ok(Seq::empty())
    } else {
        match pairs_in_lines(all.drop_last(), now) {
            Err(f) => Err(f),
            Ok(pairs) => match pairs_in_line(all.last(), now) {
                Err(f) => Err(f),
                Ok(more) => Ok(pairs + more),
            },
        }
    }
}

/// A new alias of the shared collection, with a random id.
pub open spec fn is_new_alias(alias: AliasInfo, pair: Pair, now: Option<i64>) -> bool {
    &&& outside::is_random_uuid(alias.id)
    &&& alias.collection_id == DEFAULT_COLLECTION_ID@
    &&& alias.collection_name == DEFAULT_COLLECTION_NAME@
    &&& alias.name == pair.0
    &&& alias.command == pair.1
    &&& !alias.deleted
    &&& alias.dirty
    &&& alias.sync_version == 0
    &&& now == Some(alias.updated_at)
}

/// New aliases of the shared collection with the given names and commands.
pub open spec fn are_new_aliases(list: Seq<AliasInfo>, pairs: Seq<Pair>, now: Option<i64>) -> bool {
    list.len() == pairs.len() && forall|i: int|
        0 <= i < list.len() ==> is_new_alias(#[trigger] list[i], pairs[i], now)
}

/// What was parsed, or why it was refused.
pub open spec fn parsed(
    r: Result<Vec<Alias>, AliazError>,
    pairs: Result<Seq<Pair>, Failure>,
    now: Option<i64>,
) -> bool {
    match pairs {
        Ok(pairs) => r matches Ok(list) && are_new_aliases(rows::recs(list@), pairs, now),
        Err(f) => r matches Err(e) && e@ == f,
    }
}

proof fn lemma_before_first(a: Seq<char>, c: char, b: Seq<char>)
    requires
        !a.contains(c),
    ensures
        before_first(a.push(c) + b, c) == a,
        (a.push(c) + b).skip(a.len() as int + 1) == b,
        (a.push(c) + b).contains(c),
    decreases a.len(),
{
    let s = a.push(c) + b;
    assert(s[a.len() as int] == c);
    assert(s.skip(a.len() as int + 1) =~= b);
    if a.len() == 0 {
        assert(before_first(s, c) =~= a);
    } else {
        let rest = a.skip(1);
        assert(a.contains(a[0]));
        assert(!rest.contains(c)) by {
            if rest.contains(c) {
                let i = rest.index_of(c);
                assert(a[i + 1] == c);
            }
        }
        lemma_before_first(rest, c, b);
        assert(s.skip(1) =~= rest.push(c) + b);
        assert(seq![a[0]] + rest =~= a);
    }
}

proof fn lemma_entries_fail(entries: Seq<Seq<char>>, now: Option<i64>, n: int)
    requires
        0 <= n <= entries.len(),
        pairs_in_entries(entries.take(n), now) is Err,
    ensures
        pairs_in_entries(entries, now) == pairs_in_entries(entries.take(n), now),
    decreases entries.len(),
{
    if n == entries.len() {
        assert(entries.take(n) =~= entries);
    } else {
        assert(entries.drop_last().take(n) =~= entries.take(n));
        lemma_entries_fail(entries.drop_last(), now, n);
    }
}

proof fn lemma_lines_fail(all: Seq<Seq<char>>, now: Option<i64>, n: int)
    requires
        0 <= n <= all.len(),
        pairs_in_lines(all.take(n), now) is Err,
    ensures
        pairs_in_lines(all, now) == pairs_in_lines(all.take(n), now),
    decreases all.len(),
{
    if n == all.len() {
        assert(all.take(n) =~= all);
    } else {
        assert(all.drop_last().take(n) =~= all.take(n));
        lemma_lines_fail(all.drop_last(), now, n);
    }
}

/// The aliases that the words behind `alias` define.
pub fn aliases_from_entries(entries: &Vec<String>, clock: &Clock) -> (r: Result<
    Vec<Alias>,
    AliazError,
>)
    ensures
        parsed(
            r,
            pairs_in_entries(text::texts(entries@), clock::time_of(*clock)),
            clock::time_of(*clock),
        ),
{
    let ghost all = text::texts(entries@);
    let ghost now = clock::time_of(*clock);
    let mut out: Vec<Alias> = Vec::new();
    let ghost mut pairs: Seq<Pair> = Seq::empty();
    assert(all.take(0) =~= Seq::<Seq<char>>::empty());
    for i in 0..entries.len()
        invariant
            all == text::texts(entries@),
            now == clock::time_of(*clock),
            pairs_in_entries(all.take(i as int), now) == Ok::<Seq<Pair>, Failure>(pairs),
            are_new_aliases(rows::recs(out@), pairs, now),
    {
        assert(all.take(i + 1).drop_last() =~= all.take(i as int));
        assert(all.take(i + 1).last() == entries@[i as int]@);
        if let Some((name, command)) = split_first(entries[i].as_str(), '=') {
            proof {
                lemma_before_first(name@, '=', command@);
            }
            if let Err(e) = validate_name(name.as_str()) {
                proof {
                    lemma_entries_fail(all, now, i + 1);
                }
                return Err(e);
            }
            let time = match now_unix(clock) {
                Ok(time) => time,
                Err(e) => {
                    proof {
                        lemma_entries_fail(all, now, i + 1);
                    }
                    return Err(e);
                },
            };
            let ghost pair: Pair = (name@, command@);
            let ghost before = rows::recs(out@);
            let alias = Alias {
                id: random_uuid(),
                collection_id: default_collection_id(),
                collection_name: default_collection_name(),
                name,
                command,
                deleted: false,
                dirty: true,
                sync_version: 0,
                updated_at: time,
            };
            let ghost added = alias@;
            out.push(alias);
            proof {
                assert(rows::recs(out@) =~= before.push(added));
                let old_pairs = pairs;
                pairs = pairs.push(pair);
                assert forall|k: int| 0 <= k < rows::recs(out@).len() implies is_new_alias(
                    #[trigger] rows::recs(out@)[k],
                    pairs[k],
                    now,
                ) by {
                    if k < before.len() {
                        assert(rows::recs(out@)[k] == before[k]);
                        assert(pairs[k] == old_pairs[k]);
                    }
                }
            }
        }
    }
    assert(all.take(all.len() as int) =~= all);
    Ok(out)
}

/// A name is a plain word, and no white space.
proof fn lemma_name_is_plain(name: Seq<char>)
    requires
        names::valid_name(name),
    ensures
        !name.contains('='),
        outside::plain_start(name.push('=')),
        forall|i: int| 0 <= i < name.len() ==> !text::white(#[trigger] name[i]) && name[i] != ' ',
{
    if name.contains('=') {
        let i = name.index_of('=');
        assert(names::name_char(name[i]));
    }
    let start = name.push('=');
    assert forall|i: int| 0 <= i < start.len() implies names::name_char(#[trigger] start[i])
        || start[i] == '=' by {
        if i < name.len() {
            assert(start[i] == name[i]);
        }
    }
    assert forall|i: int| 0 <= i < name.len() implies !text::white(#[trigger] name[i]) && name[i]
        != ' ' by {
        assert(names::name_char(name[i]));
    }
}

/// A text that begins and ends with something else than white space is trimmed.
proof fn lemma_trimmed(s: Seq<char>)
    requires
        s.len() > 0,
        !text::white(s[0]),
        !text::white(s.last()),
    ensures
        text::trimmed(s) == s,
{
}

/// The definition of an alias, as a line that is read.
proof fn lemma_definition(alias: AliasInfo)
    requires
        names::valid_name(alias.name),
    ensures
        ({
            let line = shell::alias_line(Shell::Zsh, alias);
            let rest = alias.name.push('=') + shell::quoted(alias.command);
            &&& text::trimmed(line) == line
            &&& text::has_prefix(line, "alias "@)
            &&& text::trimmed(text::without_prefixes(line, "alias "@)) == rest
        }),
{
    let head = "alias "@;
    let line = shell::alias_line(Shell::Zsh, alias);
    let name = alias.name;
    let rest = name.push('=') + shell::quoted(alias.command);
    reveal_strlit("alias ");
    reveal_strlit("=");
    reveal_strlit("'");
    lemma_name_is_plain(name);
    assert(line =~= head + rest);
    assert(line[0] == 'a');
    assert(rest.last() == '\'');
    assert(line.last() == rest.last());
    lemma_trimmed(line);
    assert(line.take(head.len() as int) =~= head);
    assert(line.skip(head.len() as int) =~= rest);
    assert(rest[0] == name[0]);
    assert(!text::has_prefix(rest, head)) by {
        if text::has_prefix(rest, head) {
            assert(rest.take(6) == head);
            assert(rest.take(6)[5] == ' ');
            assert(rest[5] == ' ');
            if name.len() > 5 {
                assert(rest[5] == name[5]);
            } else {
                let k = name.len() as int;
                assert(rest[k] == '=');
                assert(rest.take(6)[k] == rest[k]);
                assert(head[k] != '=');
            }
        }
    }
    reveal_with_fuel(text::without_prefixes, 2);
    assert(text::without_prefixes(line, head) == rest);
    lemma_trimmed(rest);
}

/// A line that is the definition of an alias, as it is written for zsh and bash, is read back as
/// it was.
pub open spec fn is_read_back(line: Seq<char>, now: Option<i64>) -> bool {
    forall|alias: AliasInfo|
        #![trigger shell::alias_line(Shell::Zsh, alias)]
        line == shell::alias_line(Shell::Zsh, alias) && names::valid_name(alias.name)
            && now is Some ==> pairs_in_line(line, now) == Ok::<Seq<Pair>, Failure>(
            seq![(alias.name, alias.command)],
        )
}

/// A quoted text behind `alias ` is read as that text, as one entry.
pub open spec fn quoted_is_read(line: Seq<char>, now: Option<i64>) -> bool {
    forall|value: Seq<char>|
        #![trigger shell::quoted(value)]
        line == "alias "@ + shell::quoted(value) ==> pairs_in_line(line, now) == pairs_in_entries(
            seq![value],
            now,
        )
}

/// The words that are read from a quoted text are that one text, whatever it holds.
pub proof fn law_quoted_is_one_word(value: Seq<char>, words: Option<Seq<Seq<char>>>)
    requires
        outside::quoted_is_one_word(shell::quoted(value), words),
    ensures
        words == Some(seq![value]),
{
    let start = Seq::<char>::empty();
    assert(start + shell::quoted(value) =~= shell::quoted(value));
    assert(start + value =~= value);
    assert(outside::plain_start(start));
}

/// A quoted text behind `alias `, as a line that is read.
proof fn lemma_quoted_entry(value: Seq<char>)
    ensures
        ({
            let line = "alias "@ + shell::quoted(value);
            &&& text::trimmed(line) == line
            &&& text::has_prefix(line, "alias "@)
            &&& text::trimmed(text::without_prefixes(line, "alias "@)) == shell::quoted(value)
        }),
{
    let head = "alias "@;
    let rest = shell::quoted(value);
    let line = head + rest;
    reveal_strlit("alias ");
    shell::law_quoted_length(value);
    assert(line[0] == 'a');
    assert(line.last() == rest.last());
    lemma_trimmed(line);
    assert(line.take(head.len() as int) =~= head);
    assert(line.skip(head.len() as int) =~= rest);
    assert(!text::has_prefix(rest, head)) by {
        if text::has_prefix(rest, head) {
            assert(rest.take(6)[0] == rest[0]);
        }
    }
    reveal_with_fuel(text::without_prefixes, 2);
    lemma_trimmed(rest);
}

/// The aliases that a line defines. The definition that is written for zsh and bash is read back
/// as it was, and a quoted text as one entry.
pub fn parse_alias_line(line: &str, clock: &Clock) -> (r: Result<Vec<Alias>, AliazError>)
    ensures
        parsed(r, pairs_in_line(line@, clock::time_of(*clock)), clock::time_of(*clock)),
        is_read_back(line@, clock::time_of(*clock)),
        quoted_is_read(line@, clock::time_of(*clock)),
{
    let ghost now = clock::time_of(*clock);
    let trimmed = trim(line);
    if !begins_with(trimmed.as_str(), "alias ") {
        proof {
            assert forall|alias: AliasInfo|
                #![trigger shell::alias_line(Shell::Zsh, alias)]
                line@ == shell::alias_line(Shell::Zsh, alias) && names::valid_name(
                    alias.name,
                ) implies false by {
                lemma_definition(alias);
            }
            assert forall|value: Seq<char>|
                #![trigger shell::quoted(value)]
                line@ == "alias "@ + shell::quoted(value) implies false by {
                lemma_quoted_entry(value);
            }
        }
        return Ok(Vec::new());
    }
    let stripped = strip_prefixes(trimmed.as_str(), "alias ");
    let rest = trim(stripped.as_str());
    let words = split_words(rest.as_str());
    proof {
        assert forall|alias: AliasInfo|
            #![trigger shell::alias_line(Shell::Zsh, alias)]
            line@ == shell::alias_line(Shell::Zsh, alias) && names::valid_name(alias.name)
                && now is Some implies pairs_in_line(line@, now) == Ok::<Seq<Pair>, Failure>(
            seq![(alias.name, alias.command)],
        ) by {
            lemma_definition(alias);
            lemma_name_is_plain(alias.name);
            let start = alias.name.push('=');
            let entry = start + alias.command;
            assert(rest@ == start + shell::quoted(alias.command));
            assert(outside::shell_words(rest@) == Some(seq![entry]));
            lemma_before_first(alias.name, '=', alias.command);
            assert(seq![entry].drop_last() =~= Seq::<Seq<char>>::empty());
            reveal_with_fuel(pairs_in_entries, 2);
            assert(pairs_in_entries(seq![entry], now) == Ok::<Seq<Pair>, Failure>(
                Seq::<Pair>::empty().push((alias.name, alias.command)),
            ));
            assert(Seq::<Pair>::empty().push((alias.name, alias.command)) =~= seq![
                (alias.name, alias.command),
            ]);
        }
    }
    proof {
        assert forall|value: Seq<char>|
            #![trigger shell::quoted(value)]
            line@ == "alias "@ + shell::quoted(value) implies pairs_in_line(line@, now)
            == pairs_in_entries(seq![value], now) by {
            lemma_quoted_entry(value);
            law_quoted_is_one_word(value, outside::shell_words(rest@));
        }
    }
    match words {
        Some(entries) => aliases_from_entries(&entries, clock),
        None => Err(AliazError::UnparsableAliasLine(trimmed)),
    }
}

/// The names and commands of aliases.
pub open spec fn pairs_of(list: Seq<AliasInfo>) -> Seq<Pair> {
    list.map_values(|alias: AliasInfo| (alias.name, alias.command))
}

/// Lines, each with its end.
pub open spec fn printed(lines: Seq<Seq<char>>) -> Seq<char>
    decreases lines.len(),
{
    if lines.len() == 0 {
        Seq::empty()
    } else {
        printed(lines.drop_last()) + lines.last().push('\n')
    }
}

/// All aliases have valid names.
pub open spec fn all_named(list: Seq<AliasInfo>) -> bool {
    forall|i: int| 0 <= i < list.len() ==> names::valid_name((#[trigger] list[i]).name)
}

proof fn lemma_escaped_keeps_line(value: Seq<char>)
    requires
        !value.contains('\n'),
    ensures
        !shell::escaped(value).contains('\n'),
    decreases value.len(),
{
    if value.len() > 0 {
        let rest = value.drop_last();
        assert(!rest.contains('\n')) by {
            if rest.contains('\n') {
                let i = rest.index_of('\n');
                assert(value[i] == '\n');
            }
        }
        assert(value[value.len() - 1] == value.last());
        lemma_escaped_keeps_line(rest);
        if shell::escaped(value).contains('\n') {
            let i = shell::escaped(value).index_of('\n');
            if i < shell::escaped(rest).len() {
                assert(shell::escaped(rest)[i] == '\n');
            }
        }
    }
}

/// The definition of an alias stands on a line of its own.
proof fn lemma_definition_is_line(alias: AliasInfo)
    requires
        names::valid_name(alias.name),
        !alias.command.contains('\n'),
    ensures
        text::lines_of(shell::alias_line(Shell::Zsh, alias).push('\n')) == seq![
            shell::alias_line(Shell::Zsh, alias),
        ],
{
    let line = shell::alias_line(Shell::Zsh, alias);
    reveal_strlit("alias ");
    reveal_strlit("=");
    reveal_strlit("'");
    lemma_escaped_keeps_line(alias.command);
    let start = "alias "@ + alias.name + "="@;
    let quoted = shell::quoted(alias.command);
    let inner = shell::escaped(alias.command);
    assert(line =~= start + quoted);
    assert(quoted =~= "'"@ + inner + "'"@);
    assert forall|i: int| 0 <= i < line.len() implies line[i] != '\n' by {
        if i < 6 {
            assert(line[i] == "alias "@[i]);
        } else if i < 6 + alias.name.len() {
            assert(line[i] == alias.name[i - 6]);
            assert(names::name_char(alias.name[i - 6]));
        } else if i >= start.len() {
            let k = i - start.len();
            assert(line[i] == quoted[k]);
            if 0 < k <= inner.len() {
                assert(quoted[k] == inner[k - 1]);
                assert(inner.contains(inner[k - 1]));
            }
        }
    }
    assert(line.last() == '\'');
    text::lemma_one_line(line);
}

/// The definitions that are printed for zsh and bash are as many lines, unless a command goes over
/// several.
pub proof fn law_definitions_are_lines(list: Seq<AliasInfo>)
    requires
        all_named(list),
        forall|i: int| 0 <= i < list.len() ==> !(#[trigger] list[i]).command.contains('\n'),
    ensures
        text::lines_of(printed(shell::alias_lines(Shell::Zsh, list))) == shell::alias_lines(
            Shell::Zsh,
            list,
        ),
    decreases list.len(),
{
    let lines = shell::alias_lines(Shell::Zsh, list);
    if list.len() == 0 {
        assert(lines =~= Seq::<Seq<char>>::empty());
        assert(text::split_on(Seq::<char>::empty(), '\n') =~= seq![Seq::<char>::empty()]);
        assert(text::lines_of(printed(lines)) =~= lines);
    } else {
        let rest = list.drop_last();
        assert forall|i: int| 0 <= i < rest.len() implies names::valid_name(
            (#[trigger] rest[i]).name,
        ) && !rest[i].command.contains('\n') by {
            assert(rest[i] == list[i]);
        }
        law_definitions_are_lines(rest);
        assert(list[list.len() - 1] == list.last());
        assert(lines.drop_last() =~= shell::alias_lines(Shell::Zsh, rest));
        let before = printed(lines.drop_last());
        assert(before.len() == 0 || before.last() == '\n');
        lemma_definition_is_line(list.last());
        text::lemma_lines_add(before, lines.last().push('\n'));
        assert(lines =~= lines.drop_last() + seq![lines.last()]);
    }
}

/// Lines that each define an alias, and are read as such, define these aliases.
proof fn lemma_definitions_read(lines: Seq<Seq<char>>, list: Seq<AliasInfo>, now: Option<i64>)
    requires
        lines == shell::alias_lines(Shell::Zsh, list),
        forall|i: int|
            0 <= i < list.len() ==> pairs_in_line(#[trigger] lines[i], now) == Ok::<
                Seq<Pair>,
                Failure,
            >(seq![(list[i].name, list[i].command)]),
    ensures
        pairs_in_lines(lines, now) == Ok::<Seq<Pair>, Failure>(pairs_of(list)),
    decreases list.len(),
{
    if list.len() == 0 {
        assert(pairs_of(list) =~= Seq::<Pair>::empty());
    } else {
        let rest = list.drop_last();
        let before = lines.drop_last();
        assert(before =~= shell::alias_lines(Shell::Zsh, rest));
        assert forall|i: int| 0 <= i < rest.len() implies pairs_in_line(#[trigger] before[i], now)
            == Ok::<Seq<Pair>, Failure>(seq![(rest[i].name, rest[i].command)]) by {
            assert(before[i] == lines[i]);
            assert(rest[i] == list[i]);
        }
        lemma_definitions_read(before, rest, now);
        assert(lines[list.len() - 1] == lines.last());
        assert(pairs_of(rest) + seq![(list.last().name, list.last().command)] =~= pairs_of(list));
    }
}

/// The aliases that a startup file defines, each a new one of the shared collection. The
/// definitions that are written for zsh and bash are read back as they were.
pub fn parse_aliases(contents: &str, clock: &Clock) -> (r: Result<Vec<Alias>, AliazError>)
    ensures
        parsed(
            r,
            pairs_in_lines(text::lines_of(contents@), clock::time_of(*clock)),
            clock::time_of(*clock),
        ),
        forall|list: Seq<AliasInfo>|
            #![trigger shell::alias_lines(Shell::Zsh, list)]
            text::lines_of(contents@) == shell::alias_lines(Shell::Zsh, list) && all_named(list)
                && clock::time_of(*clock) is Some ==> pairs_in_lines(
                text::lines_of(contents@),
                clock::time_of(*clock),
            ) == Ok::<Seq<Pair>, Failure>(pairs_of(list)),
{
    let all = lines(contents);
    let ghost want = text::lines_of(contents@);
    let ghost now = clock::time_of(*clock);
    let mut out: Vec<Alias> = Vec::new();
    let ghost mut pairs: Seq<Pair> = Seq::empty();
    assert(want.take(0) =~= Seq::<Seq<char>>::empty());
    for i in 0..all.len()
        invariant
            text::texts(all@) == want,
            want == text::lines_of(contents@),
            now == clock::time_of(*clock),
            pairs_in_lines(want.take(i as int), now) == Ok::<Seq<Pair>, Failure>(pairs),
            are_new_aliases(rows::recs(out@), pairs, now),
            forall|k: int| 0 <= k < i ==> is_read_back(#[trigger] want[k], now),
    {
        assert(want.take(i + 1).drop_last() =~= want.take(i as int));
        assert(want.take(i + 1).last() == all@[i as int]@);
        assert(want[i as int] == all@[i as int]@);
        match parse_alias_line(all[i].as_str(), clock) {
            Ok(mut found) => {
                let ghost more = pairs_in_line(all@[i as int]@, now)->Ok_0;
                let ghost before = rows::recs(out@);
                let ghost added = rows::recs(found@);
                out.append(&mut found);
                proof {
                    assert(rows::recs(out@) =~= before + added);
                    let old_pairs = pairs;
                    pairs = pairs + more;
                    assert forall|k: int| 0 <= k < rows::recs(out@).len() implies is_new_alias(
                        #[trigger] rows::recs(out@)[k],
                        pairs[k],
                        now,
                    ) by {
                        if k < before.len() {
                            assert(rows::recs(out@)[k] == before[k]);
                            assert(pairs[k] == old_pairs[k]);
                        } else {
                            assert(rows::recs(out@)[k] == added[k - before.len()]);
                            assert(pairs[k] == more[k - old_pairs.len()]);
                        }
                    }
                }
            },
            Err(e) => {
                proof {
                    lemma_lines_fail(want, now, i + 1);
                    assert forall|list: Seq<AliasInfo>|
                        #![trigger shell::alias_lines(Shell::Zsh, list)]
                        want == shell::alias_lines(Shell::Zsh, list) && all_named(list)
                            && now is Some implies false by {
                        assert(want[i as int] == shell::alias_line(Shell::Zsh, list[i as int]));
                        assert(is_read_back(want[i as int], now));
                    }
                }
                return Err(e);
            },
        }
    }
    proof {
        assert(want.take(want.len() as int) =~= want);
        assert forall|list: Seq<AliasInfo>|
            #![trigger shell::alias_lines(Shell::Zsh, list)]
            want == shell::alias_lines(Shell::Zsh, list) && all_named(list)
                && now is Some implies pairs_in_lines(want, now) == Ok::<Seq<Pair>, Failure>(
            pairs_of(list),
        ) by {
            assert forall|i: int| 0 <= i < list.len() implies pairs_in_line(
                #[trigger] want[i],
                now,
            ) == Ok::<Seq<Pair>, Failure>(seq![(list[i].name, list[i].command)]) by {
                assert(want[i] == shell::alias_line(Shell::Zsh, list[i]));
                assert(is_read_back(want[i], now));
            }
            lemma_definitions_read(want, list, now);
        }
    }
    Ok(out)
}

// ---------------------------------------------------------------------------
// Many definitions
// ---------------------------------------------------------------------------
/// Where lines follow other lines, the aliases that they define follow those of the others. The
/// first line that is refused, in either list, is what the whole is refused for.
pub proof fn law_lines_define_in_turn(a: Seq<Seq<char>>, b: Seq<Seq<char>>, now: Option<i64>)
    ensures
        match (pairs_in_lines(a, now), pairs_in_lines(b, now)) {
            (Ok(first), Ok(second)) => pairs_in_lines(a + b, now) == Ok::<Seq<Pair>, Failure>(
                first + second,
            ),
            (Err(f), _) => pairs_in_lines(a + b, now) == Err::<Seq<Pair>, Failure>(f),
            (Ok(_), Err(f)) => pairs_in_lines(a + b, now) == Err::<Seq<Pair>, Failure>(f),
        },
    decreases b.len(),
{
    if b.len() == 0 {
        assert(a + b =~= a);
        if let Ok(first) = pairs_in_lines(a, now) {
            assert(first + Seq::<Pair>::empty() =~= first);
        }
    } else {
        assert((a + b).drop_last() =~= a + b.drop_last());
        assert((a + b).last() == b.last());
        law_lines_define_in_turn(a, b.drop_last(), now);
        if pairs_in_lines(a, now) is Ok && pairs_in_lines(b, now) is Ok {
            let first = pairs_in_lines(a, now)->Ok_0;
            let second = pairs_in_lines(b.drop_last(), now)->Ok_0;
            let more = pairs_in_line(b.last(), now)->Ok_0;
            assert((first + second) + more =~= first + (second + more));
        }
    }
}

/// One line defines what it defines by itself.
pub proof fn law_one_line_defines(line: Seq<char>, now: Option<i64>)
    ensures
        pairs_in_lines(seq![line], now) == pairs_in_line(line, now),
        pairs_in_lines(Seq::empty(), now) == Ok::<Seq<Pair>, Failure>(Seq::empty()),
{
    reveal_with_fuel(pairs_in_lines, 2);
    assert(seq![line].drop_last() =~= Seq::<Seq<char>>::empty());
    if let Ok(more) = pairs_in_line(line, now) {
        assert(Seq::<Pair>::empty() + more =~= more);
    }
}

/// A line that does not start with `alias `, such as an empty one or a comment, changes nothing
/// wherever it stands.
pub proof fn law_other_lines_change_nothing(
    a: Seq<Seq<char>>,
    line: Seq<char>,
    b: Seq<Seq<char>>,
    now: Option<i64>,
)
    requires
        forall|rest: Seq<char>| text::trimmed(line) != #[trigger] ("alias "@ + rest),
    ensures
        pairs_in_lines(a + seq![line] + b, now) == pairs_in_lines(a + b, now),
{
    text::law_has_prefix(text::trimmed(line), "alias "@);
    law_one_line_defines(line, now);
    law_lines_define_in_turn(a, seq![line], now);
    law_lines_define_in_turn(a + seq![line], b, now);
    law_lines_define_in_turn(a, b, now);
    if let Ok(first) = pairs_in_lines(a, now) {
        assert(first + Seq::<Pair>::empty() =~= first);
    }
}

/// A file whose first part ends with a line end defines what the first part defines, followed by
/// what the rest defines.
pub proof fn law_contents_define_in_turn(a: Seq<char>, b: Seq<char>, now: Option<i64>)
    requires
        a.len() == 0 || a.last() == '\n',
        pairs_in_lines(text::lines_of(a), now) is Ok,
        pairs_in_lines(text::lines_of(b), now) is Ok,
    ensures
        pairs_in_lines(text::lines_of(a + b), now) == Ok::<Seq<Pair>, Failure>(
            pairs_in_lines(text::lines_of(a), now)->Ok_0 + pairs_in_lines(
                text::lines_of(b),
                now,
            )->Ok_0,
        ),
{
    text::lemma_lines_add(a, b);
    law_lines_define_in_turn(text::lines_of(a), text::lines_of(b), now);
}

/// Where words follow other words behind `alias`, the aliases that they define follow those of the
/// others. The first word that is refused is what the whole is refused for.
pub proof fn law_entries_define_in_turn(a: Seq<Seq<char>>, b: Seq<Seq<char>>, now: Option<i64>)
    ensures
        match (pairs_in_entries(a, now), pairs_in_entries(b, now)) {
            (Ok(first), Ok(second)) => pairs_in_entries(a + b, now) == Ok::<Seq<Pair>, Failure>(
                first + second,
            ),
            (Err(f), _) => pairs_in_entries(a + b, now) == Err::<Seq<Pair>, Failure>(f),
            (Ok(_), Err(f)) => pairs_in_entries(a + b, now) == Err::<Seq<Pair>, Failure>(f),
        },
    decreases b.len(),
{
    if b.len() == 0 {
        assert(a + b =~= a);
        if let Ok(first) = pairs_in_entries(a, now) {
            assert(first + Seq::<Pair>::empty() =~= first);
        }
    } else {
        assert((a + b).drop_last() =~= a + b.drop_last());
        assert((a + b).last() == b.last());
        law_entries_define_in_turn(a, b.drop_last(), now);
        if pairs_in_entries(a, now) is Ok && pairs_in_entries(b, now) is Ok {
            let first = pairs_in_entries(a, now)->Ok_0;
            let second = pairs_in_entries(b.drop_last(), now)->Ok_0;
            assert((first + second).push(pair_of(b.last())) =~= first + second.push(
                pair_of(b.last()),
            ));
        }
    }
}

/// A word of a name, an equals sign and a command defines the command under the name, whatever
/// else the command holds. The name has to be valid, and there has to be a time.
pub proof fn law_entry_defines(name: Seq<char>, command: Seq<char>, now: Option<i64>)
    requires
        !name.contains('='),
    ensures
        ({
            let r = pairs_in_entries(seq![name + seq!['='] + command], now);
            &&& names::valid_name(name) && now is Some ==> r == Ok::<Seq<Pair>, Failure>(
                seq![(name, command)],
            )
            &&& names::valid_name(name) && now is None ==> r == Err::<Seq<Pair>, Failure>(
                Failure::ClockBeforeEpoch,
            )
            &&& !names::valid_name(name) ==> r == Err::<Seq<Pair>, Failure>(
                Failure::InvalidName(name),
            )
        }),
{
    let entry = name + seq!['='] + command;
    assert(entry =~= name.push('=') + command);
    lemma_before_first(name, '=', command);
    reveal_with_fuel(pairs_in_entries, 2);
    assert(seq![entry].drop_last() =~= Seq::<Seq<char>>::empty());
    assert(Seq::<Pair>::empty().push((name, command)) =~= seq![(name, command)]);
}

/// A word without an equals sign defines nothing.
pub proof fn law_plain_word_defines_nothing(word: Seq<char>, now: Option<i64>)
    requires
        !word.contains('='),
    ensures
        pairs_in_entries(seq![word], now) == Ok::<Seq<Pair>, Failure>(Seq::empty()),
{
    reveal_with_fuel(pairs_in_entries, 2);
    assert(seq![word].drop_last() =~= Seq::<Seq<char>>::empty());
}

/// A line defines what the words behind `alias` define, and is refused where they cannot be told
/// apart. White space around the line and around the words does not count.
pub proof fn law_alias_line_defines(
    a: Seq<char>,
    b: Seq<char>,
    c: Seq<char>,
    words: Seq<char>,
    now: Option<i64>,
)
    requires
        text::all_white(a),
        text::all_white(b),
        text::all_white(c),
        words.len() > 0,
        !text::white(words[0]),
        !text::white(words.last()),
        forall|rest: Seq<char>| b + words != #[trigger] ("alias "@ + rest),
    ensures
        pairs_in_line(a + ("alias "@ + b + words) + c, now) == match outside::shell_words(words) {
            Some(entries) => pairs_in_entries(entries, now),
            None => Err(Failure::UnparsableAliasLine("alias "@ + b + words)),
        },
{
    let head = "alias "@;
    reveal_strlit("alias ");
    let body = head + b + words;
    let line = a + body + c;
    assert(body[0] == 'a');
    assert(body.last() == words.last());
    text::law_trimmed(a, body, c);
    assert(body =~= head + (b + words));
    text::law_has_prefix(body, head);
    text::law_without_prefixes(b + words, head);
    let none = Seq::<char>::empty();
    assert(b + words + none =~= b + words);
    text::law_trimmed(b, words, none);
}

/// What is read from a startup file becomes an alias of the shared collection that is not deleted,
/// waits to be sent and was never sent.
pub proof fn law_parsed_aliases_are_new(
    list: Seq<AliasInfo>,
    pairs: Seq<Pair>,
    now: Option<i64>,
    i: int,
)
    requires
        are_new_aliases(list, pairs, now),
        0 <= i < pairs.len(),
    ensures
        list.len() == pairs.len(),
        list[i].name == pairs[i].0,
        list[i].command == pairs[i].1,
        list[i].collection_id == "collection:shared"@,
        list[i].collection_name == "shared"@,
        list[i].id.len() == 36,
        !list[i].deleted,
        list[i].dirty,
        list[i].sync_version == 0,
        now == Some(list[i].updated_at),
{
}

/// What is parsed is a list of aliases with the names and commands that were read, in their order,
/// or the failure that was met.
pub proof fn law_parsed(
    r: Result<Vec<Alias>, AliazError>,
    pairs: Result<Seq<Pair>, Failure>,
    now: Option<i64>,
)
    requires
        parsed(r, pairs, now),
    ensures
        r is Ok <==> pairs is Ok,
        pairs matches Err(f) ==> r->Err_0@ == f,
        pairs matches Ok(found) ==> r->Ok_0@.len() == found.len() && forall|i: int|
            0 <= i < found.len() ==> (#[trigger] r->Ok_0@[i]).name@ == found[i].0
                && r->Ok_0@[i].command@ == found[i].1,
{
    if let Ok(found) = pairs {
        let list = r->Ok_0@;
        assert forall|i: int| 0 <= i < found.len() implies (#[trigger] list[i]).name@ == found[i].0
            && list[i].command@ == found[i].1 by {
            assert(rows::recs(list)[i] == list[i]@);
            assert(is_new_alias(rows::recs(list)[i], found[i], now));
        }
    }
}

/// More than one `alias ` at the front of a line counts as one.
pub proof fn law_repeated_alias_counts_once(body: Seq<char>, now: Option<i64>)
    requires
        body.len() > 0,
        !text::white(body.last()),
    ensures
        pairs_in_line("alias "@ + ("alias "@ + body), now) is Ok <==> pairs_in_line(
            "alias "@ + body,
            now,
        ) is Ok,
        pairs_in_line("alias "@ + body, now) is Ok ==> pairs_in_line(
            "alias "@ + ("alias "@ + body),
            now,
        ) == pairs_in_line("alias "@ + body, now),
        pairs_in_line("alias "@ + body, now) == Err::<Seq<Pair>, Failure>(
            Failure::UnparsableAliasLine("alias "@ + body),
        ) && outside::shell_words(
            text::trimmed(text::without_prefixes(body, "alias "@)),
        ) is None ==> pairs_in_line("alias "@ + ("alias "@ + body), now) == Err::<
            Seq<Pair>,
            Failure,
        >(Failure::UnparsableAliasLine("alias "@ + ("alias "@ + body))),
{
    let head = "alias "@;
    reveal_strlit("alias ");
    let one = head + body;
    let two = head + one;
    assert(one[0] == 'a' && one.last() == body.last());
    assert(two[0] == 'a' && two.last() == body.last());
    lemma_trimmed(one);
    lemma_trimmed(two);
    text::law_has_prefix(one, head);
    text::law_has_prefix(two, head);
    text::law_without_prefixes(one, head);
    text::law_without_prefixes(body, head);
}

/// White space around a line does not count.
pub proof fn law_white_around_lines(a: Seq<char>, line: Seq<char>, b: Seq<char>, now: Option<i64>)
    requires
        text::all_white(a),
        text::all_white(b),
    ensures
        pairs_in_line(a + line + b, now) == pairs_in_line(line, now),
{
    text::law_trimmed_part(line);
    let s = text::trimmed(line);
    let (x, y) = choose|x: Seq<char>, y: Seq<char>|
        text::all_white(x) && text::all_white(y) && line == #[trigger] (x + s + y);
    assert(a + line + b =~= (a + x) + s + (y + b));
    assert(text::all_white(a + x));
    assert(text::all_white(y + b));
    text::law_trimmed(a + x, s, y + b);
}

} // verus!
