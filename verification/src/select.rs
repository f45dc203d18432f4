//! Choosing one of the aliases that a shell gets.

use vstd::prelude::*;

use crate::error::{AliazError, Failure};
use crate::model::AliasInfo;
use crate::rows;
use crate::store::Alias;
use crate::text;
use crate::text::{cat3, has_part, join, lower, trim};

verus! {

/// An alias as it is shown in a list to choose from.
pub open spec fn select_line(alias: AliasInfo) -> Seq<char> {
    alias.name + "\t"@ + alias.command
}

/// An alias as it is shown in a list to choose from.
pub fn alias_select_line(alias: &Alias) -> (r: String)
    ensures
        r@ == select_line(alias@),
{
    cat3(alias.name.as_str(), "\t", alias.command.as_str())
}

/// What is searched for a text, without regard to case.
pub fn alias_search_text(alias: &Alias) -> (r: String)
    ensures
        r@ == text::lowered(select_line(alias@)),
{
    let line = alias_select_line(alias);
    lower(line.as_str())
}

/// The alias holds the text, without regard to case.
pub open spec fn matches_query(alias: AliasInfo, query: Seq<char>) -> bool {
    text::contains_text(text::lowered(select_line(alias)), text::lowered(query))
}

/// The first alias that holds the text, the very first one for a blank text.
pub open spec fn first_match(aliases: Seq<AliasInfo>, query: Seq<char>, r: Option<usize>) -> bool {
    if text::trimmed(query).len() == 0 {
        r == Some(0usize)
    } else {
        match r {
            Some(i) => i < aliases.len() && matches_query(aliases[i as int], query) && forall|k: int|
                0 <= k < i ==> !matches_query(#[trigger] aliases[k], query),
            None => forall|k: int|
                0 <= k < aliases.len() ==> !matches_query(#[trigger] aliases[k], query),
        }
    }
}

/// The first alias that holds the text, the very first one for a blank text.
pub fn first_matching_alias(aliases: &Vec<Alias>, query: &str) -> (r: Option<usize>)
    ensures
        first_match(rows::recs(aliases@), query@, r),
{
    let blank = trim(query);
    if blank.as_str().is_empty() {
        return Some(0);
    }
    let wanted = lower(query);
    let ghost all = rows::recs(aliases@);
    for i in 0..aliases.len()
        invariant
            all == rows::recs(aliases@),
            wanted@ == text::lowered(query@),
            text::trimmed(query@).len() > 0,
            forall|k: int| 0 <= k < i ==> !matches_query(#[trigger] all[k], query@),
    {
        assert(all[i as int] == aliases@[i as int]@);
        let searched = alias_search_text(&aliases[i]);
        if has_part(searched.as_str(), wanted.as_str()) {
            return Some(i);
        }
    }
    None
}

/// What to do to choose an alias.
#[derive(Debug)]
pub enum Choice {
    /// Take this one.
    Take(usize),
    /// Let the user choose among these lines, with this text to begin with.
    Ask {
        items: Vec<String>,
        initial: String,
    },
}

/// The lines to choose from.
pub fn alias_select_lines(aliases: &Vec<Alias>) -> (r: Vec<String>)
    ensures
        text::texts(r@) == rows::recs(aliases@).map_values(|a: AliasInfo| select_line(a)),
{
    let ghost want = rows::recs(aliases@).map_values(|a: AliasInfo| select_line(a));
    let mut out: Vec<String> = Vec::new();
    for i in 0..aliases.len()
        invariant
            want == rows::recs(aliases@).map_values(|a: AliasInfo| select_line(a)),
            text::texts(out@) =~= want.take(i as int),
    {
        let ghost before = text::texts(out@);
        assert(want[i as int] == select_line(aliases@[i as int]@));
        out.push(alias_select_line(&aliases[i]));
        assert(text::texts(out@) =~= before.push(want[i as int]));
    }
    assert(want.take(want.len() as int) =~= want);
    out
}

/// What to do to choose an alias: `first` asks for the first match, anything else needs a
/// terminal.
pub open spec fn is_choice(
    aliases: Seq<AliasInfo>,
    query: Seq<char>,
    first: bool,
    terminal: bool,
    r: Result<Choice, AliazError>,
) -> bool {
    if aliases.len() == 0 {
        r matches Err(e) && e@ == Failure::NoAliases
    } else if first {
        match r {
            Ok(Choice::Take(i)) => first_match(aliases, query, Some(i)),
            Ok(Choice::Ask { .. }) => false,
            Err(e) => first_match(aliases, query, None) && e@ == Failure::NoMatchingAlias(query),
        }
    } else if !terminal {
        r matches Err(e) && e@ == Failure::NotInteractive
    } else {
        match r {
            Ok(Choice::Ask { items, initial }) => text::texts(items@) == aliases.map_values(
                |a: AliasInfo| select_line(a),
            ) && initial@ == query,
            _ => false,
        }
    }
}

/// What to do to choose an alias by the words of a query.
pub fn select_alias(aliases: &Vec<Alias>, query: &Vec<String>, first: bool, terminal: bool) -> (r:
    Result<Choice, AliazError>)
    ensures
        is_choice(
            rows::recs(aliases@),
            text::joined(text::texts(query@), " "@),
            first,
            terminal,
            r,
        ),
{
    if aliases.len() == 0 {
        return Err(AliazError::NoAliases);
    }
    let query = join(query, " ");
    if first {
        return match first_matching_alias(aliases, query.as_str()) {
            Some(i) => Ok(Choice::Take(i)),
            None => Err(AliazError::NoMatchingAlias(query)),
        };
    }
    if !terminal {
        return Err(AliazError::NotInteractive);
    }
    Ok(Choice::Ask { items: alias_select_lines(aliases), initial: query })
}

/// What to do with the alias that was chosen.
#[derive(Debug)]
pub enum Selected {
    /// None was chosen.
    Nothing,
    /// Print the command.
    Print(String),
    /// Run the command.
    Run(String),
}

/// The command of the alias that was chosen is printed or run; where none was, nothing is.
pub open spec fn is_selected(
    aliases: Seq<Alias>,
    chosen: Option<usize>,
    print_command: bool,
    r: Selected,
) -> bool {
    match chosen {
        None => r is Nothing,
        Some(i) => if print_command {
            r matches Selected::Print(s) && s@ == aliases[i as int].command@
        } else {
            r matches Selected::Run(s) && s@ == aliases[i as int].command@
        },
    }
}

/// What to do with the alias that was chosen, if one was.
pub fn selected_alias(aliases: &Vec<Alias>, chosen: Option<usize>, print_command: bool) -> (r:
    Selected)
    requires
        chosen matches Some(i) ==> i < aliases@.len(),
    ensures
        is_selected(aliases@, chosen, print_command, r),
{
    match chosen {
        None => Selected::Nothing,
        Some(i) => {
            let command = aliases[i].command.clone();
            if print_command {
                Selected::Print(command)
            } else {
                Selected::Run(command)
            }
        },
    }
}

// ---------------------------------------------------------------------------
// Which alias is chosen
// ---------------------------------------------------------------------------
/// An alias holds a text if and only if its name, a tab and its command, in lower case, are the
/// text in lower case with something before and behind it. The case of the query does not count.
pub proof fn law_matches(alias: AliasInfo, query: Seq<char>)
    ensures
        matches_query(alias, query) <==> exists|a: Seq<char>, b: Seq<char>|
            text::lowered(alias.name + seq!['\t'] + alias.command) == #[trigger] (a + text::lowered(
                query,
            ) + b),
        matches_query(alias, text::lowered(query)) == matches_query(alias, query),
{
    reveal_strlit("\t");
    assert("\t"@ =~= seq!['\t']);
    text::law_contains_text(text::lowered(select_line(alias)), text::lowered(query));
    text::law_lowered(query, 0);
}

/// There is one answer to a query.
pub proof fn law_one_first_match(
    aliases: Seq<AliasInfo>,
    query: Seq<char>,
    a: Option<usize>,
    b: Option<usize>,
)
    requires
        first_match(aliases, query, a),
        first_match(aliases, query, b),
    ensures
        a == b,
{
    if text::trimmed(query).len() > 0 {
        if let Some(i) = a {
            if let Some(j) = b {
                if i < j {
                    assert(matches_query(aliases[i as int], query));
                }
                if j < i {
                    assert(matches_query(aliases[j as int], query));
                }
            } else {
                assert(matches_query(aliases[i as int], query));
            }
        } else if let Some(j) = b {
            assert(matches_query(aliases[j as int], query));
        }
    }
}

/// A blank query takes the first alias. Any other one takes the first alias that holds it, and none
/// before that one holds it; where none is found, no alias holds it.
pub proof fn law_first_match(aliases: Seq<AliasInfo>, query: Seq<char>, r: Option<usize>)
    requires
        first_match(aliases, query, r),
    ensures
        text::all_white(query) ==> r == Some(0usize),
        !text::all_white(query) ==> {
            &&& r matches Some(i) ==> i < aliases.len() && text::contains_text(
                text::lowered(aliases[i as int].name + seq!['\t'] + aliases[i as int].command),
                text::lowered(query),
            )
            &&& forall|k: int|
                0 <= k < aliases.len() && (r is None || k < r.unwrap()) ==> !text::contains_text(
                    text::lowered((#[trigger] aliases[k]).name + seq!['\t'] + aliases[k].command),
                    text::lowered(query),
                )
        },
{
    reveal_strlit("\t");
    assert("\t"@ =~= seq!['\t']);
    text::law_trimmed_part(query);
    let none = Seq::<char>::empty();
    if text::all_white(query) {
        assert(query + none + none =~= query);
        text::law_trimmed(query, none, none);
    } else if text::trimmed(query).len() == 0 {
        let (a, b) = choose|a: Seq<char>, b: Seq<char>|
            text::all_white(a) && text::all_white(b) && query == #[trigger] (a + text::trimmed(
                query,
            ) + b);
        assert(query =~= a + b);
        assert(text::all_white(query));
    }
    assert forall|k: int| 0 <= k < aliases.len() && (r is None || k < r.unwrap())
        && !text::all_white(query) implies !text::contains_text(
        text::lowered((#[trigger] aliases[k]).name + seq!['\t'] + aliases[k].command),
        text::lowered(query),
    ) by {
        assert(!matches_query(aliases[k], query));
    }
}

/// Aliases that follow others change nothing where one of the others is found; otherwise the first
/// of them that holds the text is.
pub proof fn law_match_in_turn(a: Seq<AliasInfo>, b: Seq<AliasInfo>, query: Seq<char>, i: usize)
    requires
        !text::all_white(query),
        a.len() + b.len() <= usize::MAX,
    ensures
        i < a.len() && first_match(a, query, Some(i)) ==> first_match(a + b, query, Some(i)),
        i < b.len() && first_match(a, query, None) && first_match(b, query, Some(i))
            ==> first_match(a + b, query, Some((a.len() + i) as usize)),
        first_match(a, query, None) && first_match(b, query, None) ==> first_match(
            a + b,
            query,
            None,
        ),
{
    let all = a + b;
    text::law_trimmed_part(query);
    if text::trimmed(query).len() == 0 {
        let (x, y) = choose|x: Seq<char>, y: Seq<char>|
            text::all_white(x) && text::all_white(y) && query == #[trigger] (x + text::trimmed(
                query,
            ) + y);
        assert(query =~= x + y);
        assert(text::all_white(query));
    }
    assert forall|k: int| 0 <= k < all.len() implies #[trigger] all[k] == if k < a.len() {
        a[k]
    } else {
        b[k - a.len()]
    } by {}
}

/// What comes of choosing: with no aliases nothing can be chosen, the first match is taken where it
/// is asked for, and otherwise the user is asked, which takes a terminal.
pub proof fn law_choice(
    aliases: Seq<AliasInfo>,
    query: Seq<char>,
    first: bool,
    terminal: bool,
    r: Result<Choice, AliazError>,
)
    requires
        is_choice(aliases, query, first, terminal, r),
    ensures
        aliases.len() == 0 ==> r is Err && r->Err_0@ == Failure::NoAliases,
        aliases.len() > 0 && !first && !terminal ==> r is Err && r->Err_0@
            == Failure::NotInteractive,
        aliases.len() > 0 && !first && terminal ==> {
            &&& r is Ok
            &&& r->Ok_0 is Ask
            &&& r->Ok_0->initial@ == query
            &&& r->Ok_0->items@.len() == aliases.len()
            &&& forall|i: int|
                0 <= i < aliases.len() ==> (#[trigger] r->Ok_0->items@[i])@ == aliases[i].name
                    + seq!['\t'] + aliases[i].command
        },
        aliases.len() > 0 && first && text::all_white(query) ==> r is Ok && r->Ok_0 is Take
            && r->Ok_0->Take_0 == 0,
        aliases.len() > 0 && first ==> {
            &&& r is Ok ==> r->Ok_0 is Take && first_match(aliases, query, Some(r->Ok_0->Take_0))
            &&& r is Err ==> r->Err_0@ == Failure::NoMatchingAlias(query) && first_match(
                aliases,
                query,
                None,
            )
        },
{
    reveal_strlit("\t");
    assert("\t"@ =~= seq!['\t']);
    if aliases.len() > 0 && first {
        if r is Ok {
            law_first_match(aliases, query, Some(r->Ok_0->Take_0));
        } else {
            law_first_match(aliases, query, None);
        }
    }
    if aliases.len() > 0 && !first && terminal {
        let items = r->Ok_0->items@;
        let lines = aliases.map_values(|a: AliasInfo| select_line(a));
        assert(text::texts(items) == lines);
        assert(items.len() == text::texts(items).len());
        assert forall|i: int| 0 <= i < aliases.len() implies (#[trigger] items[i])@
            == aliases[i].name + seq!['\t'] + aliases[i].command by {
            assert(text::texts(items)[i] == items[i]@);
            assert(lines[i] == select_line(aliases[i]));
        }
    }
}

/// Nothing is done where nothing was chosen. Otherwise the command of the chosen alias is printed if
/// and only if that was asked for, and run if not.
pub proof fn law_selected(
    aliases: Seq<Alias>,
    chosen: Option<usize>,
    print_command: bool,
    r: Selected,
)
    requires
        is_selected(aliases, chosen, print_command, r),
    ensures
        r is Nothing <==> chosen is None,
        r is Print <==> chosen is Some && print_command,
        r is Run <==> chosen is Some && !print_command,
        r is Print ==> r->Print_0@ == aliases[chosen.unwrap() as int].command@,
        r is Run ==> r->Run_0@ == aliases[chosen.unwrap() as int].command@,
{
}

} // verus!
