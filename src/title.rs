//! Save names: the game id and suffix they carry, and the title shown
//! for them.

use crate::dir_entry::FSEntry;
use crate::vmc::{is_dot_entry_name, is_dot_name};
use vstd::prelude::*;
use vstd::string::*;

verus! {

/// What `str::to_uppercase` makes of a text.
pub uninterp spec fn upper_of(s: Seq<char>) -> Seq<char>;

/// What `str::to_lowercase` makes of a text.
pub uninterp spec fn lower_of(s: Seq<char>) -> Seq<char>;

/// What `char::is_alphanumeric` says of a character.
pub uninterp spec fn alphanumeric(c: char) -> bool;

/// Relies on `str::to_uppercase`: the result depends on the text alone.
#[verifier::external_body]
fn uppercase(s: &str) -> (r: String)
    ensures
        r@ == upper_of(s@),
{
    s.to_uppercase()
}

/// Relies on `str::to_lowercase`: the result depends on the text alone.
#[verifier::external_body]
pub(crate) fn to_lower(s: &str) -> (r: String)
    ensures
        r@ == lower_of(s@),
{
    s.to_lowercase()
}

/// Relies on `char::is_alphanumeric`: the answer depends on the character alone.
#[verifier::external_body]
fn is_alphanumeric(c: char) -> (r: bool)
    ensures
        r == alphanumeric(c),
{
    c.is_alphanumeric()
}

/// The characters of `s`.
fn chars_of(s: &str) -> (r: Vec<char>)
    ensures
        r@ == s@,
{
    let n = s.unicode_len();
    let mut v: Vec<char> = Vec::new();
    let mut i: usize = 0;
    while i < n
        invariant
            i <= n,
            n == s@.len(),
            v@ == s@.subrange(0, i as int),
        decreases n - i,
    {
        v.push(s.get_char(i));
        i = i + 1;
        assert(v@ =~= s@.subrange(0, i as int));
    }
    assert(v@ =~= s@);
    v
}

/// `s` ends with `suffix`.
pub open spec fn ends_with(s: Seq<char>, suffix: Seq<char>) -> bool {
    suffix.len() <= s.len() && s.subrange(s.len() - suffix.len(), s.len() as int) == suffix
}

/// `s` starts with `prefix`.
pub open spec fn starts_with(s: Seq<char>, prefix: Seq<char>) -> bool {
    prefix.len() <= s.len() && s.subrange(0, prefix.len() as int) == prefix
}

/// `needle` occurs in `hay`.
pub open spec fn contains_seq(hay: Seq<char>, needle: Seq<char>) -> bool {
    exists|i: int|
        0 <= i && i + needle.len() <= hay.len() && #[trigger] hay.subrange(i, i + needle.len())
            == needle
}

fn chars_end_with(s: &Vec<char>, suffix: &Vec<char>) -> (r: bool)
    ensures
        r == ends_with(s@, suffix@),
{
    if suffix.len() > s.len() {
        return false;
    }
    let sl = s.len();
    let d = sl - suffix.len();
    let mut i: usize = 0;
    while i < suffix.len()
        invariant
            i <= suffix@.len(),
            suffix@.len() <= s@.len(),
            sl == s@.len(),
            d == s@.len() - suffix@.len(),
            forall|j: int| 0 <= j < i ==> s@[d + j] == suffix@[j],
        decreases suffix@.len() - i,
    {
        if s[d + i] != suffix[i] {
            assert(s@.subrange(d as int, s@.len() as int)[i as int] != suffix@[i as int]);
            return false;
        }
        i = i + 1;
    }
    assert(s@.subrange(d as int, s@.len() as int) =~= suffix@);
    true
}

fn chars_start_with(s: &Vec<char>, prefix: &Vec<char>) -> (r: bool)
    ensures
        r == starts_with(s@, prefix@),
{
    if prefix.len() > s.len() {
        return false;
    }
    let mut i: usize = 0;
    while i < prefix.len()
        invariant
            i <= prefix@.len(),
            prefix@.len() <= s@.len(),
            forall|j: int| 0 <= j < i ==> s@[j] == prefix@[j],
        decreases prefix@.len() - i,
    {
        if s[i] != prefix[i] {
            assert(s@.subrange(0, prefix@.len() as int)[i as int] != prefix@[i as int]);
            return false;
        }
        i = i + 1;
    }
    assert(s@.subrange(0, prefix@.len() as int) =~= prefix@);
    true
}

/// Tells whether `needle` occurs in `hay`.
pub fn contains_text(hay: &str, needle: &str) -> (r: bool)
    ensures
        r == contains_seq(hay@, needle@),
{
    let h = chars_of(hay);
    let n = chars_of(needle);
    if n.len() > h.len() {
        return false;
    }
    let hl = h.len();
    let last = hl - n.len();
    let mut i: usize = 0;
    loop
        invariant
            last == h@.len() - n@.len(),
            h@.len() >= n@.len(),
            hl == h@.len(),
            i <= last,
            h@ == hay@,
            n@ == needle@,
            forall|k: int| 0 <= k < i ==> #[trigger] h@.subrange(k, k + n@.len()) != n@,
        decreases last - i,
    {
        let mut j: usize = 0;
        let mut same = true;
        while j < n.len()
            invariant
                j <= n@.len(),
                i <= last,
                h@.len() >= n@.len(),
                hl == h@.len(),
                last == h@.len() - n@.len(),
                same == forall|t: int| 0 <= t < j ==> h@[i + t] == n@[t],
            decreases n@.len() - j,
        {
            if h[i + j] != n[j] {
                same = false;
            }
            j = j + 1;
        }
        if same {
            assert(h@.subrange(i as int, i + n@.len()) =~= n@);
            return true;
        }
        assert(h@.subrange(i as int, i + n@.len()) != n@) by {
            let t = choose|t: int| 0 <= t < n@.len() && h@[i + t] != n@[t];
            assert(h@.subrange(i as int, i + n@.len())[t] != n@[t]);
        }
        if i == last {
            return false;
        }
        i = i + 1;
    }
}

/// The save-name suffixes that are recognised, longest first.
pub open spec fn known_suffixes() -> Seq<Seq<char>> {
    seq![
        "SAVEDATA"@,
        "GAMEDATA"@,
        "BEMU5YYY"@,
        "2014OPT"@,
        "2014000"@,
        "SYSTEM"@,
        "CONFIG"@,
        "TCNYC"@,
        "DAT0"@,
        "DAT1"@,
        "DAT2"@,
        "DATA"@,
        "SAVE"@,
        "000"@,
        "001"@,
        "002"@,
        "003"@,
        "004"@,
        "005"@,
        "006"@,
        "007"@,
        "008"@,
        "009"@,
        "SYS"@,
        "OPT"@,
    ]
}

/// The first of `suffixes` that `s` ends with.
pub open spec fn first_suffix(s: Seq<char>, suffixes: Seq<Seq<char>>) -> Option<Seq<char>>
    decreases suffixes.len(),
{
    if suffixes.len() == 0 {
        None
    } else if ends_with(s, suffixes[0]) {
        Some(suffixes[0])
    } else {
        first_suffix(s, suffixes.drop_first())
    }
}

/// An upper-case save name split into its game id and its suffix: the
/// first known suffix it ends with is cut off; with none, the suffix is
/// empty.
pub open spec fn split_save_name(u: Seq<char>) -> (Seq<char>, Seq<char>) {
    match first_suffix(u, known_suffixes()) {
        Some(suf) => (u.subrange(0, u.len() - suf.len()), suf),
        None => (u, Seq::empty()),
    }
}

/// A save name's game id and suffix.
#[derive(Debug)]
pub struct ExtractedId {
    pub id: String,
    pub suffix: String,
}

/// Splits the upper-case save name `upper` into its game id and suffix.
pub fn split_suffix(upper: &str) -> (r: ExtractedId)
    ensures
        r.id@ == split_save_name(upper@).0,
        r.suffix@ == split_save_name(upper@).1,
{
    let suffixes: [&str; 25] = [
        "SAVEDATA",
        "GAMEDATA",
        "BEMU5YYY",
        "2014OPT",
        "2014000",
        "SYSTEM",
        "CONFIG",
        "TCNYC",
        "DAT0",
        "DAT1",
        "DAT2",
        "DATA",
        "SAVE",
        "000",
        "001",
        "002",
        "003",
        "004",
        "005",
        "006",
        "007",
        "008",
        "009",
        "SYS",
        "OPT",
    ];
    let ghost known = known_suffixes();
    assert forall|j: int| 0 <= j < 25 implies #[trigger] suffixes@[j]@ == known[j] by {}
    let u = chars_of(upper);
    let mut i: usize = 0;
    proof {
        assert(known.skip(0) =~= known);
    }
    while i < 25
        invariant
            i <= 25,
            u@ == upper@,
            known == known_suffixes(),
            known.len() == 25,
            forall|j: int| 0 <= j < 25 ==> #[trigger] suffixes@[j]@ == known[j],
            first_suffix(u@, known) == first_suffix(u@, known.skip(i as int)),
        decreases 25 - i,
    {
        let suf = suffixes[i];
        let s = chars_of(suf);
        proof {
            assert(known.skip(i as int)[0] == known[i as int]);
            assert(known.skip(i as int).drop_first() =~= known.skip(i + 1));
        }
        if chars_end_with(&u, &s) {
            let k = u.len() - s.len();
            let id = String::from_str(upper.substring_char(0, k));
            let suffix = String::from_str(suf);
            return ExtractedId { id, suffix };
        }
        i = i + 1;
    }
    proof {
        assert(known.skip(25) =~= Seq::<Seq<char>>::empty());
    }
    ExtractedId { id: String::from_str(upper), suffix: String::new() }
}

/// Splits a save name into its game id and suffix: the name is upper-cased,
/// then the first known suffix (longest first) that it ends with is cut off.
pub fn extract_game_id_from_save(save_name: &str) -> (r: ExtractedId)
    ensures
        r.id@ == split_save_name(upper_of(save_name@)).0,
        r.suffix@ == split_save_name(upper_of(save_name@)).1,
{
    let upper = uppercase(save_name);
    split_suffix(upper.as_str())
}

/// A save name made of an upper-case game id and one of the known suffixes
/// splits back into that id and suffix, provided no suffix checked before
/// it (a longer one) also ends the name.
pub proof fn lemma_suffix_round_trip(id: Seq<char>, k: int)
    requires
        0 <= k < known_suffixes().len(),
        upper_of(id + known_suffixes()[k]) == id + known_suffixes()[k],
        forall|j: int| 0 <= j < k ==> !ends_with(id + known_suffixes()[k], #[trigger] known_suffixes()[j]),
    ensures
        split_save_name(upper_of(id + known_suffixes()[k])) == (id, known_suffixes()[k]),
{
    let known = known_suffixes();
    let s = known[k];
    let u = id + s;
    assert(ends_with(u, s)) by {
        assert(u.subrange(u.len() - s.len(), u.len() as int) =~= s);
    }
    lemma_first_suffix_at(u, known, k);
    assert(u.subrange(0, u.len() - s.len()) =~= id);
}

/// The first suffix found is the one at index `k` when it matches and none
/// before it does.
proof fn lemma_first_suffix_at(u: Seq<char>, suffixes: Seq<Seq<char>>, k: int)
    requires
        0 <= k < suffixes.len(),
        ends_with(u, suffixes[k]),
        forall|j: int| 0 <= j < k ==> !ends_with(u, #[trigger] suffixes[j]),
    ensures
        first_suffix(u, suffixes) == Some(suffixes[k]),
    decreases k,
{
    if k > 0 {
        let rest = suffixes.drop_first();
        assert forall|j: int| 0 <= j < k - 1 implies !ends_with(u, #[trigger] rest[j]) by {
            assert(rest[j] == suffixes[j + 1]);
        }
        lemma_first_suffix_at(u, rest, k - 1);
    }
}

/// Suffixes that are shown after a game's title.
pub open spec fn shows_suffix(suffix: Seq<char>) -> bool {
    ||| suffix == "2014OPT"@
    ||| suffix == "2014000"@
    ||| suffix == "DAT0"@
    ||| suffix == "BEMU5YYY"@
    ||| suffix == "TCNYC"@
}

/// A title, followed by " (<suffix>)" where the suffix is one that is shown.
pub open spec fn decorated_title(title: Seq<char>, suffix: Seq<char>) -> Seq<char> {
    if shows_suffix(suffix) && suffix.len() > 0 {
        title + " ("@ + suffix + ")"@
    } else {
        title
    }
}

/// The built-in table of game ids and titles.
pub open spec fn builtin_games() -> Seq<(Seq<char>, Seq<char>)> {
    seq![
        ("BESLES-55673"@, "PES 2014: Pro Evolution Soccer"@),
        ("BASLUS-21050"@, "Burnout 3: Takedown"@),
        ("BASLUS-21846"@, "Sonic Unleashed"@),
        ("BASCUS-97436"@, "Gran Turismo 4"@),
        ("BASLUS-21672"@, "Guitar Hero III: Legends of Rock"@),
        ("BISLPS-25912"@, "Soul Eater: Battle Resonance"@),
        ("BASLUS-21106"@, "True Crime: New York City"@),
    ]
}

/// A table id answers for a game id: they are equal, or one begins the other.
pub open spec fn id_matches(table_id: Seq<char>, id: Seq<char>) -> bool {
    table_id == id || starts_with(id, table_id) || starts_with(table_id, id)
}

/// The title of the first row of `games` whose id answers for `id`.
pub open spec fn lookup_builtin(games: Seq<(Seq<char>, Seq<char>)>, id: Seq<char>) -> Option<
    Seq<char>,
>
    decreases games.len(),
{
    if games.len() == 0 {
        None
    } else if id_matches(games[0].0, id) {
        Some(games[0].1)
    } else {
        lookup_builtin(games.drop_first(), id)
    }
}

/// The title shown for the save `save_name` with game id `id` and suffix
/// `suffix`: the title found by an outside lookup if there is one, else the
/// built-in table's, decorated with the suffix where it is shown; else
/// "Unknown Game (<save_name>)".
pub open spec fn game_title(
    save_name: Seq<char>,
    id: Seq<char>,
    suffix: Seq<char>,
    found: Option<Seq<char>>,
) -> Seq<char> {
    match found {
        Some(t) => decorated_title(t, suffix),
        None => match lookup_builtin(builtin_games(), id) {
            Some(t) => decorated_title(t, suffix),
            None => "Unknown Game ("@ + save_name + ")"@,
        },
    }
}

fn same_text(a: &str, b: &str) -> (r: bool)
    ensures
        r == (a@ == b@),
{
    let x = chars_of(a);
    let y = chars_of(b);
    let r = x.len() == y.len() && chars_start_with(&x, &y);
    assert(r ==> x@ =~= y@.subrange(0, y@.len() as int));
    assert(y@.subrange(0, y@.len() as int) =~= y@);
    r
}

/// Tells whether `suffix` is one that is shown after a title.
pub fn is_shown_suffix(suffix: &str) -> (r: bool)
    ensures
        r == shows_suffix(suffix@),
{
    same_text(suffix, "2014OPT") || same_text(suffix, "2014000") || same_text(suffix, "DAT0")
        || same_text(suffix, "BEMU5YYY") || same_text(suffix, "TCNYC")
}

fn decorate(title: &str, suffix: &str) -> (r: String)
    ensures
        r@ == decorated_title(title@, suffix@),
{
    let mut t = String::from_str(title);
    if is_shown_suffix(suffix) && suffix.unicode_len() > 0 {
        t.append(" (");
        t.append(suffix);
        t.append(")");
    }
    t
}

/// The title shown for `save_name`, whose game id and suffix are
/// `extracted`, given what an outside title lookup `found` for the id.
pub fn game_title_for(extracted: &ExtractedId, save_name: &str, found: Option<&str>) -> (r: String)
    ensures
        r@ == game_title(
            save_name@,
            extracted.id@,
            extracted.suffix@,
            match found {
                Some(t) => Some(t@),
                None => None,
            },
        ),
{
    if let Some(t) = found {
        return decorate(t, extracted.suffix.as_str());
    }
    let games: [(&str, &str); 7] = [
        ("BESLES-55673", "PES 2014: Pro Evolution Soccer"),
        ("BASLUS-21050", "Burnout 3: Takedown"),
        ("BASLUS-21846", "Sonic Unleashed"),
        ("BASCUS-97436", "Gran Turismo 4"),
        ("BASLUS-21672", "Guitar Hero III: Legends of Rock"),
        ("BISLPS-25912", "Soul Eater: Battle Resonance"),
        ("BASLUS-21106", "True Crime: New York City"),
    ];
    let ghost table = builtin_games();
    assert forall|j: int| 0 <= j < 7 implies #[trigger] games@[j].0@ == table[j].0 && games@[j].1@
        == table[j].1 by {}
    let id = chars_of(extracted.id.as_str());
    let mut i: usize = 0;
    proof {
        assert(table.skip(0) =~= table);
    }
    while i < 7
        invariant
            i <= 7,
            found is None,
            id@ == extracted.id@,
            table == builtin_games(),
            table.len() == 7,
            forall|j: int|
                0 <= j < 7 ==> #[trigger] games@[j].0@ == table[j].0 && games@[j].1@ == table[j].1,
            lookup_builtin(table, id@) == lookup_builtin(table.skip(i as int), id@),
        decreases 7 - i,
    {
        let (gid, title) = games[i];
        proof {
            assert(games@[i as int] == (gid, title));
            assert(games@[i as int].0@ == table[i as int].0 && games@[i as int].1@ == table[
                i as int
            ].1);
            assert(gid@ == table[i as int].0 && title@ == table[i as int].1);
            assert(table.skip(i as int)[0] == table[i as int]);
            assert(table.skip(i as int).drop_first() =~= table.skip(i + 1));
        }
        let g = chars_of(gid);
        if same_text(gid, extracted.id.as_str()) || chars_start_with(&id, &g) || chars_start_with(
            &g,
            &id,
        ) {
            return decorate(title, extracted.suffix.as_str());
        }
        i = i + 1;
    }
    proof {
        assert(table.skip(7) =~= Seq::<(Seq<char>, Seq<char>)>::empty());
    }
    let mut t = String::from_str("Unknown Game (");
    t.append(save_name);
    t.append(")");
    t
}

/// The title shown for `save_name` from the built-in table alone.
pub fn get_game_title(save_name: &str) -> (r: String)
    ensures
        r@ == game_title(
            save_name@,
            split_save_name(upper_of(save_name@)).0,
            split_save_name(upper_of(save_name@)).1,
            None,
        ),
{
    let extracted = extract_game_id_from_save(save_name);
    game_title_for(&extracted, save_name, None)
}

/// A character that ends the game id at the start of an entry name:
/// neither alphanumeric nor '-'.
pub open spec fn ends_game_id(c: char) -> bool {
    !alphanumeric(c) && c != '-'
}

/// The length of the game id at the start of `name`.
pub open spec fn game_id_len(name: Seq<char>) -> nat
    decreases name.len(),
{
    if name.len() == 0 || ends_game_id(name[0]) {
        0
    } else {
        1 + game_id_len(name.drop_first())
    }
}

proof fn lemma_game_id_len(name: Seq<char>, i: int)
    requires
        0 <= i <= name.len(),
        forall|j: int| 0 <= j < i ==> !ends_game_id(#[trigger] name[j]),
        i == name.len() || ends_game_id(name[i]),
    ensures
        game_id_len(name) == i,
    decreases i,
{
    if i > 0 {
        let rest = name.drop_first();
        assert forall|j: int| 0 <= j < i - 1 implies !ends_game_id(#[trigger] rest[j]) by {
            assert(rest[j] == name[j + 1]);
        }
        lemma_game_id_len(rest, i - 1);
    }
}

/// Index of the first character of `s` that ends a game id (its length
/// where there is none).
fn game_id_end(s: &str) -> (r: usize)
    ensures
        r == game_id_len(s@),
        r <= s@.len(),
{
    let cs = chars_of(s);
    let mut i: usize = 0;
    while i < cs.len() && (is_alphanumeric(cs[i]) || cs[i] == '-')
        invariant
            i <= cs@.len(),
            cs@ == s@,
            forall|j: int| 0 <= j < i ==> !ends_game_id(#[trigger] cs@[j]),
        decreases cs@.len() - i,
    {
        i = i + 1;
    }
    proof {
        lemma_game_id_len(s@, i as int);
    }
    i
}

impl FSEntry {
    /// The game id at the start of the entry's name: the characters before
    /// the first one that is neither alphanumeric nor '-'.
    pub fn get_game_id(&self) -> (r: String)
        ensures
            r@ == self.name@.subrange(0, game_id_len(self.name@) as int),
    {
        let s = self.name.as_str();
        let k = game_id_end(s);
        String::from_str(s.substring_char(0, k))
    }

    /// What follows the game id in the entry's name.
    pub fn get_save_description(&self) -> (r: String)
        ensures
            r@ == self.name@.subrange(game_id_len(self.name@) as int, self.name@.len() as int),
    {
        let s = self.name.as_str();
        let k = game_id_end(s);
        String::from_str(s.substring_char(k, s.unicode_len()))
    }
}

/// The game id that a save name carries.
pub open spec fn game_id_of(name: Seq<char>) -> Seq<char> {
    split_save_name(upper_of(name)).0
}

/// The distinct game ids carried by the entries other than "." and "..".
pub open spec fn game_ids(entries: Seq<FSEntry>) -> Set<Seq<char>> {
    entries.filter(|e: FSEntry| !is_dot_name(e.name@)).map_values(|e: FSEntry| game_id_of(e.name@)).to_set()
}

/// Counts the distinct game ids carried by the entries other than "." and "..".
pub fn count_unique_games(entries: &Vec<FSEntry>) -> (r: usize)
    ensures
        r == game_ids(entries@).len(),
{
    let ghost keep = |e: FSEntry| !is_dot_name(e.name@);
    let ghost gid = |e: FSEntry| game_id_of(e.name@);
    let mut ids: Vec<String> = Vec::new();
    let ghost mut seen: Seq<Seq<char>> = Seq::empty();
    let mut i: usize = 0;
    proof {
        assert(entries@.subrange(0, 0).filter(keep) =~= Seq::<FSEntry>::empty());
        assert(Seq::<FSEntry>::empty().map_values(gid).to_set() =~= Set::<Seq<char>>::empty());
    }
    while i < entries.len()
        invariant
            i <= entries@.len(),
            keep == (|e: FSEntry| !is_dot_name(e.name@)),
            gid == (|e: FSEntry| game_id_of(e.name@)),
            seen.len() == ids@.len(),
            forall|j: int| 0 <= j < ids@.len() ==> #[trigger] ids@[j]@ == seen[j],
            seen.no_duplicates(),
            seen.to_set() == entries@.subrange(0, i as int).filter(keep).map_values(gid).to_set(),
        decreases entries@.len() - i,
    {
        let e = &entries[i];
        let ghost pre = entries@.subrange(0, i as int);
        proof {
            pre.lemma_filter_push(*e, keep);
            assert(entries@.subrange(0, i + 1) =~= pre.push(*e));
        }
        if !is_dot_entry_name(&e.name) {
            let id = extract_game_id_from_save(e.name.as_str()).id;
            let mut known = false;
            let mut j: usize = 0;
            while j < ids.len()
                invariant
                    j <= ids@.len(),
                    seen.len() == ids@.len(),
                    forall|t: int| 0 <= t < ids@.len() ==> #[trigger] ids@[t]@ == seen[t],
                    known == exists|t: int| 0 <= t < j && seen[t] == id@,
                decreases ids@.len() - j,
            {
                if same_text(ids[j].as_str(), id.as_str()) {
                    known = true;
                }
                j = j + 1;
            }
            proof {
                let f = pre.filter(keep);
                assert(pre.push(*e).filter(keep) == f.push(*e));
                assert(f.push(*e).map_values(gid) =~= f.map_values(gid).push(id@));
                f.map_values(gid).lemma_push_to_set_commute(id@);
                seen.lemma_push_to_set_commute(id@);
            }
            if !known {
                ids.push(id);
                proof {
                    seen = seen.push(id@);
                }
            } else {
                proof {
                    let t = choose|t: int| 0 <= t < seen.len() && seen[t] == id@;
                    assert(seen.to_set().contains(id@));
                    assert(seen.to_set().insert(id@) =~= seen.to_set());
                }
            }
        } else {
            proof {
                assert(pre.push(*e).filter(keep) == pre.filter(keep));
            }
        }
        i = i + 1;
    }
    proof {
        assert(entries@.subrange(0, i as int) =~= entries@);
        seen.unique_seq_to_set();
    }
    ids.len()
}

} // verus!
