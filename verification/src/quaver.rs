//! Reading what Quaver writes: the key count in a map's mode string, the rate
//! in the mods file, and where a map file of a given id is.
use vstd::prelude::*;
use vstd::string::*;
use crate::map::{QuaverMap, QuaverMapView};
use crate::text::{
    before_first, decimal_text, first_index_of, lemma_first_index_of, lemma_parse_u32_laws,
    lemma_parse_u32_of_decimal_text, parse_u32_spec,
    parse_u32_text, trim, trim_text,
};

verus! {

/// `mode` begins with `Keys`.
pub open spec fn starts_with_keys(mode: Seq<char>) -> bool {
    mode.len() >= 4 && mode.subrange(0, 4) == seq!['K', 'e', 'y', 's']
}

/// The key count that a mode string such as `Keys4` names, or the message
/// that says why it names none.
pub open spec fn key_count_of(mode: Seq<char>) -> Result<u32, Seq<char>> {
    if !starts_with_keys(mode) {
        Err("Invalid mode format: "@ + mode)
    } else {
        match parse_u32_spec(mode.subrange(4, mode.len() as int)) {
            Some(n) => Ok(n),
            None => Err("Could not parse key count from: "@ + mode),
        }
    }
}

/// A `Result` whose error is a `String`, with the error taken by its view.
pub open spec fn text_result<T>(r: Result<T, String>) -> Result<T, Seq<char>> {
    match r {
        Ok(v) => Ok(v),
        Err(e) => Err(e@),
    }
}

/// A `Result` of two `String`s, taken by their views.
pub open spec fn texts_result(r: Result<String, String>) -> Result<Seq<char>, Seq<char>> {
    match r {
        Ok(v) => Ok(v@),
        Err(e) => Err(e@),
    }
}

/// Extracts the key count from a Quaver mode string (`Keys4` gives 4).
pub fn parse_key_count(mode: &str) -> (r: Result<u32, String>)
    ensures
        text_result(r) == key_count_of(mode@),
{
    let n = mode.unicode_len();
    if n < 4 || mode.get_char(0) != 'K' || mode.get_char(1) != 'e' || mode.get_char(2) != 'y'
        || mode.get_char(3) != 's' {
        proof {
            if n >= 4 {
                let p = mode@.subrange(0, 4);
                if p == seq!['K', 'e', 'y', 's'] {
                    assert(p[0] == mode@[0] && p[1] == mode@[1] && p[2] == mode@[2] && p[3]
                        == mode@[3]);
                }
            }
        }
        return Err(String::from_str("Invalid mode format: ").concat(mode));
    }
    assert(mode@.subrange(0, 4) =~= seq!['K', 'e', 'y', 's']);
    let rest = mode.substring_char(4, n);
    match parse_u32_text(rest) {
        Some(count) => Ok(count),
        None => Err(String::from_str("Could not parse key count from: ").concat(mode)),
    }
}

/// The text before the first `x` of a mods string, trimmed, or the message
/// that says there is no `x`.
pub open spec fn rate_text_of(mods: Seq<char>) -> Result<Seq<char>, Seq<char>> {
    match first_index_of(mods, 'x') {
        Some(k) => Ok(trim(mods.subrange(0, k))),
        None => Err("No 'x' found in mods string"@),
    }
}

/// The rate part of a Quaver mods string (`1.5x` gives `1.5`): what comes
/// before the first `x`, without surrounding white space. Reading that text
/// as a number is left to the caller.
pub fn rate_text_from_mods(mods: &str) -> (r: Result<String, String>)
    ensures
        texts_result(r) == rate_text_of(mods@),
{
    match before_first(mods, 'x') {
        Some(head) => Ok(trim_text(head.as_str())),
        None => Err(String::from_str("No 'x' found in mods string")),
    }
}

/// The name of the file that holds the map with id `map_id`.
pub fn qua_file_name(map_id: &str) -> (r: String)
    ensures
        r@ == map_id@ + ".qua"@,
{
    String::from_str(map_id).concat(".qua")
}

/// Whether a directory entry is the map file searched for: a plain file whose
/// name (where it is valid Unicode) is `searched`.
pub fn is_searched_file(is_file: bool, file_name: &Option<String>, searched: &String) -> (r: bool)
    ensures
        r == (is_file && file_name is Some && file_name->0@ == searched@),
{
    if !is_file {
        return false;
    }
    match file_name {
        Some(name) => *name == *searched,
        None => false,
    }
}

/// The outcome of looking for a map file and reading it: where nothing was
/// found, `None`; else the path as shown to the user, and the map where the
/// file could be read and parsed.
pub type MapLookup = Option<(String, Option<QuaverMap>)>;

/// What `find_and_parse_map` gives for a lookup, by views.
pub open spec fn map_lookup_result(map_id: Seq<char>, lookup: MapLookup) -> Result<
    QuaverMapView,
    Seq<char>,
> {
    match lookup {
        None => Err("Could not find map with ID: "@ + map_id),
        Some((path, parsed)) => match parsed {
            None => Err("Failed to parse map: "@ + path@),
            Some(m) => Ok(m@),
        },
    }
}

/// A map result taken by views.
pub open spec fn map_result_view(r: Result<QuaverMap, String>) -> Result<QuaverMapView, Seq<char>> {
    match r {
        Ok(m) => Ok(m@),
        Err(e) => Err(e@),
    }
}

/// The map with id `map_id`, from the outcome of the search for its file and
/// of reading it: the map where one was found and parsed, else the message
/// that says which step failed.
pub fn find_and_parse_map(map_id: &str, lookup: MapLookup) -> (r: Result<QuaverMap, String>)
    ensures
        map_result_view(r) == map_lookup_result(map_id@, lookup),
        match lookup {
            Some((_, Some(m))) => r == Ok::<QuaverMap, String>(m),
            _ => true,
        },
{
    match lookup {
        None => Err(String::from_str("Could not find map with ID: ").concat(map_id)),
        Some((path, parsed)) => match parsed {
            None => Err(String::from_str("Failed to parse map: ").concat(path.as_str())),
            Some(m) => Ok(m),
        },
    }
}


/// A mode string `Keys` followed by the decimal digits of a number names that
/// number of keys.
pub proof fn lemma_key_count_of_keys_mode(n: u32)
    ensures
        key_count_of(seq!['K', 'e', 'y', 's'] + decimal_text(n as nat)) == Ok::<u32, Seq<char>>(n),
{
    let mode = seq!['K', 'e', 'y', 's'] + decimal_text(n as nat);
    lemma_parse_u32_of_decimal_text(n);
    assert(mode.subrange(0, 4) =~= seq!['K', 'e', 'y', 's']);
    assert(mode.subrange(4, mode.len() as int) =~= decimal_text(n as nat));
}


/// A map that was found and parsed is given back as parsed: every field of
/// the result is that field of the parsed map. Only a failed search or parse
/// gives an error.
pub proof fn lemma_found_map_is_returned_unchanged(map_id: Seq<char>, path: String, m: QuaverMap)
    ensures
        ({
            let r = map_lookup_result(map_id, Some((path, Some(m))));
            &&& r is Ok
            &&& r->Ok_0.title == m.title@
            &&& r->Ok_0.artist == m.artist@
            &&& r->Ok_0.difficulty_name == m.difficulty_name@
            &&& r->Ok_0.hit_objects == m.hit_objects@
            &&& r->Ok_0.mode == m.mode@
        }),
        map_lookup_result(map_id, None) is Err,
        map_lookup_result(map_id, Some((path, None))) is Err,
{
}


/// A mode string names a key count only after `Keys`: without that prefix
/// the answer is the invalid-format message; with it, a character after the
/// prefix that is not a digit (but for one `+` right after it) gives the
/// could-not-parse message.
pub proof fn lemma_key_count_refusals(mode: Seq<char>)
    ensures
        !(mode.len() >= 4 && mode[0] == 'K' && mode[1] == 'e' && mode[2] == 'y' && mode[3] == 's')
            ==> key_count_of(mode) == Err::<u32, Seq<char>>("Invalid mode format: "@ + mode),
        forall|k: int|
            4 <= k < mode.len() && mode[0] == 'K' && mode[1] == 'e' && mode[2] == 'y' && mode[3]
                == 's' && !('0' <= #[trigger] mode[k] && mode[k] <= '9') && !(k == 4 && mode[4]
                == '+') ==> key_count_of(mode) == Err::<u32, Seq<char>>(
                "Could not parse key count from: "@ + mode,
            ),
{
    if mode.len() >= 4 && mode.subrange(0, 4) == seq!['K', 'e', 'y', 's'] {
        assert(mode[0] == mode.subrange(0, 4)[0] && mode[1] == mode.subrange(0, 4)[1] && mode[2]
            == mode.subrange(0, 4)[2] && mode[3] == mode.subrange(0, 4)[3]);
    }
    assert forall|k: int|
        4 <= k < mode.len() && mode[0] == 'K' && mode[1] == 'e' && mode[2] == 'y' && mode[3] == 's'
            && !('0' <= #[trigger] mode[k] && mode[k] <= '9') && !(k == 4 && mode[4] == '+')
            implies key_count_of(mode) == Err::<u32, Seq<char>>(
        "Could not parse key count from: "@ + mode,
    ) by {
        assert(mode.subrange(0, 4) =~= seq!['K', 'e', 'y', 's']);
        let rest = mode.subrange(4, mode.len() as int);
        assert(rest[k - 4] == mode[k]);
        lemma_parse_u32_laws(rest, 0);
        assert(!('0' <= rest[k - 4] && rest[k - 4] <= '9'));
    }
}

/// The rate text is what stands before the first `x`, without white space
/// at its ends; with no `x` at all the answer is the no-x message.
pub proof fn lemma_rate_text_is_before_first_x(mods: Seq<char>)
    ensures
        (forall|k: int| 0 <= k < mods.len() ==> mods[k] != 'x') ==> rate_text_of(mods) == Err::<
            Seq<char>,
            Seq<char>,
        >("No 'x' found in mods string"@),
        forall|k: int|
            0 <= k < mods.len() && #[trigger] mods[k] == 'x' && (forall|i: int|
                0 <= i < k ==> mods[i] != 'x') ==> rate_text_of(mods) == Ok::<Seq<char>, Seq<char>>(
                trim(mods.subrange(0, k)),
            ),
{
    lemma_first_index_of(mods, 'x');
    assert forall|k: int|
        0 <= k < mods.len() && #[trigger] mods[k] == 'x' && (forall|i: int|
            0 <= i < k ==> mods[i] != 'x') implies rate_text_of(mods) == Ok::<Seq<char>, Seq<char>>(
        trim(mods.subrange(0, k)),
    ) by {
        match first_index_of(mods, 'x') {
            Some(f) => {
                if f < k {
                    assert(mods[f] != 'x');
                } else if f > k {
                    assert(mods[k] != 'x');
                }
            },
            None => {
                assert(mods[k] != 'x');
            },
        }
    }
    if forall|k: int| 0 <= k < mods.len() ==> mods[k] != 'x' {
        match first_index_of(mods, 'x') {
            Some(f) => {
                assert(mods[f] != 'x');
            },
            None => {},
        }
    }
}

} // verus!
