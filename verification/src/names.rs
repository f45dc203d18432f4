//! Names of aliases and collections.

use vstd::prelude::*;

use crate::error::AliazError;
use crate::error::Failure;
use crate::text;
use crate::text::{cat, chars_of, is_ascii_alphanumeric, same_text, split, trim};

verus! {

/// The collection that every alias belongs to unless another is named.
pub const DEFAULT_COLLECTION_NAME: &'static str = "shared";

/// The id of the shared collection.
pub const DEFAULT_COLLECTION_ID: &'static str = "collection:shared";

/// The id of the shared collection, for records that name none.
pub fn default_collection_id() -> (r: String)
    ensures
        r@ == DEFAULT_COLLECTION_ID@,
{
    DEFAULT_COLLECTION_ID.to_owned()
}

/// The name of the shared collection, for records that name none.
pub fn default_collection_name() -> (r: String)
    ensures
        r@ == DEFAULT_COLLECTION_NAME@,
{
    DEFAULT_COLLECTION_NAME.to_owned()
}

/// The characters that a name may hold.
pub open spec fn name_char(c: char) -> bool {
    text::ascii_alphanumeric(c) || c == '_' || c == '-' || c == '.'
}

/// A name is not empty and holds only ASCII letters, digits, `_`, `-` and `.`.
pub open spec fn valid_name(name: Seq<char>) -> bool {
    name.len() > 0 && forall|i: int| 0 <= i < name.len() ==> name_char(#[trigger] name[i])
}

/// Accepts exactly the valid names.
pub fn validate_name(name: &str) -> (r: Result<(), AliazError>)
    ensures
        r is Ok <==> valid_name(name@),
        r matches Err(e) ==> e@ == Failure::InvalidName(name@),
{
    let chars = chars_of(name);
    let mut valid = chars.len() > 0;
    for i in 0..chars.len()
        invariant
            chars@ == name@,
            valid == (name@.len() > 0 && forall|k: int|
                0 <= k < i ==> name_char(#[trigger] name@[k])),
    {
        let c = chars[i];
        if !(is_ascii_alphanumeric(c) || c == '_' || c == '-' || c == '.') {
            assert(!name_char(name@[i as int]));
            valid = false;
        }
    }
    if valid {
        Ok(())
    } else {
        Err(AliazError::InvalidName(name.to_owned()))
    }
}

/// The shared collection has a fixed id, any other one is named in its id.
pub open spec fn id_for_name(name: Seq<char>) -> Seq<char> {
    if name == DEFAULT_COLLECTION_NAME@ {
        DEFAULT_COLLECTION_ID@
    } else {
        "collection:"@ + name
    }
}

/// The id that a new collection gets.
pub fn collection_id_for_name(name: &str) -> (r: String)
    ensures
        r@ == id_for_name(name@),
{
    if same_text(name, DEFAULT_COLLECTION_NAME) {
        DEFAULT_COLLECTION_ID.to_owned()
    } else {
        cat("collection:", name)
    }
}

/// Different names give different ids.
pub proof fn lemma_ids_differ(a: Seq<char>, b: Seq<char>)
    requires
        id_for_name(a) == id_for_name(b),
    ensures
        a == b,
{
    reveal_strlit("collection:");
    reveal_strlit("collection:shared");
    reveal_strlit("shared");
    let head = "collection:"@;
    assert("collection:shared"@ =~= head + "shared"@);
    assert((head + a).skip(head.len() as int) =~= a);
    assert((head + b).skip(head.len() as int) =~= b);
}

pub proof fn lemma_shared_is_valid()
    ensures
        valid_name(DEFAULT_COLLECTION_NAME@),
{
    reveal_strlit("shared");
}

/// The file that holds the secret of a user: their id, with every character that might mean
/// something in a path replaced.
pub open spec fn secret_file_name_of(user_id: Seq<char>) -> Seq<char> {
    user_id.map_values(
        |c: char|
            if text::ascii_alphanumeric(c) || c == '-' || c == '_' {
                c
            } else {
                '_'
            },
    )
}

/// The name of the file that holds the secret of a user.
pub fn secret_file_name(user_id: &str) -> (r: String)
    ensures
        r@ == secret_file_name_of(user_id@),
{
    let chars = chars_of(user_id);
    let mut out = String::new();
    for i in 0..chars.len()
        invariant
            chars@ == user_id@,
            out@ =~= secret_file_name_of(user_id@.take(i as int)),
    {
        let c = chars[i];
        assert(user_id@.take(i + 1) =~= user_id@.take(i as int).push(c));
        if is_ascii_alphanumeric(c) || c == '-' || c == '_' {
            out.push(c);
        } else {
            out.push('_');
        }
    }
    assert(user_id@.take(user_id@.len() as int) =~= user_id@);
    out
}

/// The names in a list of pieces: trimmed, without the empty ones and without the shared
/// collection. The first one that is not a name makes the list fail.
pub open spec fn names_in(pieces: Seq<Seq<char>>) -> Result<Seq<Seq<char>>, Failure>
    decreases pieces.len(),
{
    if pieces.len() == 0 {
        Ok(Seq::empty())
    } else {
        match names_in(pieces.drop_last()) {
            Err(f) => Err(f),
            Ok(names) => {
                let name = text::trimmed(pieces.last());
                if name.len() == 0 {
                    Ok(names)
                } else if !valid_name(name) {
                    Err(Failure::InvalidName(name))
                } else if name == DEFAULT_COLLECTION_NAME@ {
                    Ok(names)
                } else {
                    Ok(names.push(name))
                }
            },
        }
    }
}

proof fn lemma_names_in_fails(pieces: Seq<Seq<char>>, n: int)
    requires
        0 <= n <= pieces.len(),
        names_in(pieces.take(n)) is Err,
    ensures
        names_in(pieces) == names_in(pieces.take(n)),
    decreases pieces.len(),
{
    if n == pieces.len() {
        assert(pieces.take(n) =~= pieces);
    } else {
        assert(pieces.drop_last().take(n) =~= pieces.take(n));
        lemma_names_in_fails(pieces.drop_last(), n);
    }
}

/// The names of collections in a comma-separated list; none for no list.
pub open spec fn names_listed(value: Option<Seq<char>>) -> Result<Seq<Seq<char>>, Failure> {
    match value {
        None => Ok(Seq::empty()),
        Some(list) => names_in(text::split_on(list, ',')),
    }
}

/// The names of collections in a comma-separated list; none for no list.
pub fn parse_collection_csv(value: Option<&str>) -> (r: Result<Vec<String>, AliazError>)
    ensures
        match names_listed(text::seen_option(value)) {
            Ok(names) => r matches Ok(v) && text::texts(v@) == names,
            Err(f) => r matches Err(e) && e@ == f,
        },
{
    let list = match value {
        None => {
            let none: Vec<String> = Vec::new();
            assert(text::texts(none@) =~= Seq::<Seq<char>>::empty());
            return Ok(none);
        },
        Some(list) => list,
    };
    let pieces = split(list, ',');
    let ghost all = text::split_on(list@, ',');
    let mut names: Vec<String> = Vec::new();
    assert(text::texts(names@) =~= Seq::<Seq<char>>::empty());
    for i in 0..pieces.len()
        invariant
            value == Some(list),
            all == text::split_on(list@, ','),
            text::texts(pieces@) == all,
            names_in(all.take(i as int)) == Ok::<Seq<Seq<char>>, Failure>(
                text::texts(names@),
            ),
    {
        assert(all.take(i + 1).drop_last() =~= all.take(i as int));
        assert(all.take(i + 1).last() == pieces@[i as int]@);
        let name = trim(pieces[i].as_str());
        if !name.as_str().is_empty() {
            if let Err(e) = validate_name(name.as_str()) {
                proof {
                    lemma_names_in_fails(all, i + 1);
                }
                return Err(e);
            }
            if !same_text(name.as_str(), DEFAULT_COLLECTION_NAME) {
                let ghost before = text::texts(names@);
                let ghost added = name@;
                names.push(name);
                assert(text::texts(names@) =~= before.push(added));
            }
        }
    }
    assert(all.take(all.len() as int) =~= all);
    Ok(names)
}

/// Every name in a parsed list is a valid name of a collection other than the shared one.
pub proof fn law_parsed_names_are_valid(pieces: Seq<Seq<char>>)
    ensures
        names_in(pieces) matches Ok(names) ==> forall|i: int|
            0 <= i < names.len() ==> valid_name(#[trigger] names[i]) && names[i]
                != DEFAULT_COLLECTION_NAME@,
    decreases pieces.len(),
{
    if pieces.len() > 0 {
        law_parsed_names_are_valid(pieces.drop_last());
    }
}

/// A name is made of ASCII letters, digits, `_`, `-` and `.` and of nothing else, one by one; no
/// name is empty.
pub proof fn law_name_characters(a: Seq<char>, c: char, b: Seq<char>)
    ensures
        !valid_name(Seq::empty()),
        valid_name(seq![c]) <==> (48 <= c as u32 <= 57 || 65 <= c as u32 <= 90 || 97 <= c as u32
            <= 122 || c as u32 == 45 || c as u32 == 46 || c as u32 == 95),
        a.len() > 0 && b.len() > 0 ==> (valid_name(a + b) <==> valid_name(a) && valid_name(b)),
{
    assert(seq![c][0] == c);
    if a.len() > 0 && b.len() > 0 {
        if valid_name(a + b) {
            assert forall|i: int| 0 <= i < a.len() implies name_char(#[trigger] a[i]) by {
                assert((a + b)[i] == a[i]);
            }
            assert forall|i: int| 0 <= i < b.len() implies name_char(#[trigger] b[i]) by {
                assert((a + b)[a.len() + i] == b[i]);
            }
        }
    }
}

/// The id of a new collection is its name behind `collection:`, the shared one no exception.
pub proof fn law_id_holds_name(name: Seq<char>)
    ensures
        id_for_name(name) == "collection:"@ + name,
{
    reveal_strlit("collection:");
    reveal_strlit("collection:shared");
    reveal_strlit("shared");
    assert("collection:shared"@ =~= "collection:"@ + "shared"@);
}

/// In the name of a secret's file, letters, digits, `-` and `_` of the user's id stay, and every
/// other character becomes `_`.
pub proof fn law_secret_file_name(user_id: Seq<char>, i: int)
    requires
        0 <= i < user_id.len(),
    ensures
        secret_file_name_of(user_id).len() == user_id.len(),
        ({
            let c = user_id[i];
            let plain = '0' <= c <= '9' || 'A' <= c <= 'Z' || 'a' <= c <= 'z' || c == '-' || c == '_';
            secret_file_name_of(user_id)[i] == if plain {
                c
            } else {
                '_'
            }
        }),
{
}

/// The names in one list of pieces are followed by those in the next. The first piece that is
/// refused, in either list, is what the whole is refused for.
pub proof fn law_names_in_turn(a: Seq<Seq<char>>, b: Seq<Seq<char>>)
    ensures
        match (names_in(a), names_in(b)) {
            (Ok(first), Ok(second)) => names_in(a + b) == Ok::<Seq<Seq<char>>, Failure>(
                first + second,
            ),
            (Err(f), _) => names_in(a + b) == Err::<Seq<Seq<char>>, Failure>(f),
            (Ok(_), Err(f)) => names_in(a + b) == Err::<Seq<Seq<char>>, Failure>(f),
        },
    decreases b.len(),
{
    if b.len() == 0 {
        assert(a + b =~= a);
        if let Ok(first) = names_in(a) {
            assert(first + Seq::<Seq<char>>::empty() =~= first);
        }
    } else {
        assert((a + b).drop_last() =~= a + b.drop_last());
        assert((a + b).last() == b.last());
        law_names_in_turn(a, b.drop_last());
        if names_in(a) is Ok && names_in(b) is Ok {
            let first = names_in(a)->Ok_0;
            let second = names_in(b.drop_last())->Ok_0;
            let name = text::trimmed(b.last());
            assert((first + second).push(name) =~= first + second.push(name));
        }
    }
}

/// A piece is a name with white space around it. The shared collection and a blank piece give none,
/// and what is no name is refused.
pub proof fn law_piece_is_name(a: Seq<char>, name: Seq<char>, b: Seq<char>)
    requires
        text::all_white(a),
        text::all_white(b),
        name.len() > 0 ==> !text::white(name[0]) && !text::white(name.last()),
    ensures
        ({
            let r = names_in(seq![a + name + b]);
            &&& name.len() == 0 || name == "shared"@ ==> r == Ok::<Seq<Seq<char>>, Failure>(
                Seq::empty(),
            )
            &&& valid_name(name) && name != "shared"@ ==> r == Ok::<Seq<Seq<char>>, Failure>(
                seq![name],
            )
            &&& name.len() > 0 && !valid_name(name) ==> r == Err::<Seq<Seq<char>>, Failure>(
                Failure::InvalidName(name),
            )
        }),
{
    text::law_trimmed(a, name, b);
    lemma_shared_is_valid();
    reveal_strlit("shared");
    let pieces = seq![a + name + b];
    reveal_with_fuel(names_in, 2);
    assert(pieces.drop_last() =~= Seq::<Seq<char>>::empty());
    assert(Seq::<Seq<char>>::empty().push(name) =~= seq![name]);
}

/// The names before a comma are followed by those behind it, and what is refused before the comma is
/// what the whole list is refused for. No list has no names, and neither has an empty one.
pub proof fn law_lists_in_turn(a: Seq<char>, b: Seq<char>)
    ensures
        names_listed(None) == Ok::<Seq<Seq<char>>, Failure>(Seq::empty()),
        names_listed(Some(Seq::empty())) == Ok::<Seq<Seq<char>>, Failure>(Seq::empty()),
        match (names_listed(Some(a)), names_listed(Some(b))) {
            (Ok(first), Ok(second)) => names_listed(Some(a.push(',') + b)) == Ok::<
                Seq<Seq<char>>,
                Failure,
            >(first + second),
            (Err(f), _) => names_listed(Some(a.push(',') + b)) == Err::<Seq<Seq<char>>, Failure>(f),
            (Ok(_), Err(f)) => names_listed(Some(a.push(',') + b)) == Err::<
                Seq<Seq<char>>,
                Failure,
            >(f),
        },
{
    let none = Seq::<char>::empty();
    text::law_split_at_separator(none, none, ',');
    assert(none + none + none =~= none);
    law_piece_is_name(none, none, none);
    text::law_split_at_separator(a, b, ',');
    law_names_in_turn(text::split_on(a, ','), text::split_on(b, ','));
}

} // verus!
