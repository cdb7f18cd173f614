//! The search path with which commands are started.

use vstd::prelude::*;

use crate::text::{
    chars_of, concat, front_stripped, lemma_prefix_in_bounds, lemma_suffix_in_bounds, lists_text,
    mentions, optional_str, prefix_in, split, split_on, strings, text_of, texts, trim, trimmed,
    CharSet,
};

verus! {

/// The first `n` pieces that are not blank.
pub open spec fn not_blank(pieces: Seq<Seq<char>>, n: int) -> Seq<Seq<char>>
    decreases n,
{
    if n <= 0 {
        Seq::empty()
    } else if trimmed(pieces[n - 1]).len() == 0 {
        not_blank(pieces, n - 1)
    } else {
        not_blank(pieces, n - 1).push(pieces[n - 1])
    }
}

/// The entries of a search path.
pub open spec fn path_entries(path: Option<Seq<char>>) -> Seq<Seq<char>> {
    match path {
        Some(path) => {
            let pieces = split_on(path, CharSet::Only(':'));
            not_blank(pieces, pieces.len() as int)
        },
        None => Seq::empty(),
    }
}

/// Directories with commands that an application started from the desktop often misses.
pub open spec fn common_entries(home: Option<Seq<char>>) -> Seq<Seq<char>> {
    let system = seq![
        "/opt/homebrew/bin"@,
        "/opt/homebrew/sbin"@,
        "/usr/local/bin"@,
        "/usr/local/sbin"@,
        "/usr/bin"@,
        "/bin"@,
        "/usr/sbin"@,
        "/sbin"@,
    ];
    match home {
        Some(home) => system.push(home + "/.local/bin"@).push(home + "/.bun/bin"@).push(
            home + "/.cargo/bin"@,
        ),
        None => system,
    }
}

/// `entries`, and those of the first `n` of `more` that it lacks.
pub open spec fn completed(entries: Seq<Seq<char>>, more: Seq<Seq<char>>, n: int) -> Seq<Seq<char>>
    decreases n,
{
    if n <= 0 {
        entries
    } else {
        let before = completed(entries, more, n - 1);
        if before.contains(more[n - 1]) {
            before
        } else {
            before.push(more[n - 1])
        }
    }
}

/// The entries of the search path with which commands are started.
pub open spec fn launch_entries(path: Option<Seq<char>>, home: Option<Seq<char>>) -> Seq<Seq<char>> {
    completed(path_entries(path), common_entries(home), common_entries(home).len() as int)
}

/// The first `n` entries, with colons between them.
pub open spec fn colon_list(entries: Seq<Seq<char>>, n: int) -> Seq<char>
    decreases n,
{
    if n <= 0 {
        Seq::empty()
    } else if n == 1 {
        entries[0]
    } else {
        colon_list(entries, n - 1) + ":"@ + entries[n - 1]
    }
}

/// Splits a search path into its entries.
fn split_path(path: Option<&str>) -> (r: Vec<String>)
    ensures
        strings(r@) == path_entries(optional_str(path)),
{
    let mut entries: Vec<String> = Vec::new();
    proof {
        assert(strings(entries@) =~= Seq::empty());
    }
    let path = match path {
        Some(path) => path,
        None => {
            return entries;
        },
    };
    let chars = chars_of(path);
    let pieces = split(chars.as_slice(), CharSet::Only(':'));
    let ghost all = split_on(path@, CharSet::Only(':'));
    let mut i: usize = 0;
    proof {
        assert(texts(pieces@).len() == pieces@.len());
    }
    while i < pieces.len()
        invariant
            i <= pieces@.len(),
            all == texts(pieces@),
            strings(entries@) == not_blank(all, i as int),
        decreases pieces.len() - i,
    {
        let ghost before = entries@;
        let piece = pieces[i].as_slice();
        proof {
            assert(all[i as int] == piece@);
        }
        if trim(piece).len() > 0 {
            entries.push(text_of(piece));
            proof {
                assert(strings(entries@) =~= strings(before).push(piece@));
            }
        }
        i += 1;
    }
    entries
}

/// Directories with commands that an application started from the desktop often misses.
fn list_common_entries(home: Option<&str>) -> (r: Vec<String>)
    ensures
        strings(r@) == common_entries(optional_str(home)),
{
    let mut entries = vec![
        "/opt/homebrew/bin".to_owned(),
        "/opt/homebrew/sbin".to_owned(),
        "/usr/local/bin".to_owned(),
        "/usr/local/sbin".to_owned(),
        "/usr/bin".to_owned(),
        "/bin".to_owned(),
        "/usr/sbin".to_owned(),
        "/sbin".to_owned(),
    ];
    match home {
        Some(home) => {
            entries.push(concat(home, "/.local/bin"));
            entries.push(concat(home, "/.bun/bin"));
            entries.push(concat(home, "/.cargo/bin"));
        },
        None => {},
    }
    proof {
        assert(strings(entries@) =~= common_entries(optional_str(home)));
    }
    entries
}

/// Writes entries with colons between them.
fn join_entries(entries: &Vec<String>) -> (r: String)
    ensures
        r@ == colon_list(strings(entries@), entries@.len() as int),
{
    if entries.len() == 0 {
        return String::new();
    }
    let ghost all = strings(entries@);
    let mut list: String = entries[0].clone();
    let mut i: usize = 1;
    proof {
        assert(all[0] == entries@[0]@);
    }
    while i < entries.len()
        invariant
            1 <= i <= entries@.len(),
            all == strings(entries@),
            list@ == colon_list(all, i as int),
        decreases entries.len() - i,
    {
        proof {
            assert(all[i as int] == entries@[i as int]@);
        }
        list = concat(concat(list.as_str(), ":").as_str(), entries[i].as_str());
        i += 1;
    }
    list
}

/// The search path with which commands are started: the entries of the present one, then the
/// common ones that it lacks. `path` and `home` are the search path and the home directory of the
/// environment.
pub fn launch_shell_path(path: Option<&str>, home: Option<&str>) -> (r: String)
    ensures
        ({
            let entries = launch_entries(optional_str(path), optional_str(home));
            r@ == colon_list(entries, entries.len() as int)
        }),
{
    let mut entries = split_path(path);
    let common = list_common_entries(home);
    let ghost start = strings(entries@);
    let ghost more = strings(common@);
    let mut i: usize = 0;
    while i < common.len()
        invariant
            i <= common@.len(),
            more == strings(common@),
            strings(entries@) == completed(start, more, i as int),
        decreases common.len() - i,
    {
        let ghost before = entries@;
        proof {
            assert(more[i as int] == common@[i as int]@);
        }
        if !lists_text(entries.as_slice(), common[i].as_str()) {
            entries.push(common[i].clone());
            proof {
                assert(strings(entries@) =~= strings(before).push(more[i as int]));
            }
        }
        i += 1;
    }
    proof {
        assert(strings(entries@).len() == entries@.len());
    }
    join_entries(&entries)
}

/// Adding what is missing keeps what is there, in its place, and leaves nothing missing.
proof fn lemma_completed(entries: Seq<Seq<char>>, more: Seq<Seq<char>>, n: int)
    requires
        0 <= n <= more.len(),
    ensures
        entries.len() <= completed(entries, more, n).len(),
        completed(entries, more, n).take(entries.len() as int) == entries,
        forall|j: int|
            0 <= j < n ==> completed(entries, more, n).contains(#[trigger] more[j]),
    decreases n,
{
    if n > 0 {
        lemma_completed(entries, more, n - 1);
        let before = completed(entries, more, n - 1);
        let now = completed(entries, more, n);
        assert(now.take(entries.len() as int) =~= before.take(entries.len() as int));
        assert forall|j: int| 0 <= j < n implies now.contains(#[trigger] more[j]) by {
            if before.contains(more[j]) {
                let k = choose|k: int| 0 <= k < before.len() && before[k] == more[j];
                assert(now[k] == more[j]);
            } else {
                assert(j == n - 1);
                assert(now[before.len() as int] == more[j]);
            }
        }
    } else {
        assert(entries.take(entries.len() as int) =~= entries);
    }
}

/// The present search path keeps its entries in their order and before all others, and no common
/// directory is missing.
pub proof fn law_launch_path_keeps_and_completes(path: Option<Seq<char>>, home: Option<Seq<char>>)
    ensures
        ({
            let entries = launch_entries(path, home);
            let present = path_entries(path);
            &&& present.len() <= entries.len()
            &&& entries.take(present.len() as int) == present
            &&& forall|j: int|
                0 <= j < common_entries(home).len() ==> entries.contains(
                    #[trigger] common_entries(home)[j],
                )
        }),
{
    lemma_completed(path_entries(path), common_entries(home), common_entries(home).len() as int);
}

/// Whether an entry stands for itself in a search path: it is not blank and holds no colon.
pub open spec fn is_plain_entry(entry: Seq<char>) -> bool {
    trimmed(entry).len() > 0 && !mentions(entry, CharSet::Only(':'))
}

/// Whether every entry stands for itself in a search path.
pub open spec fn all_plain(entries: Seq<Seq<char>>) -> bool {
    forall|i: int| 0 <= i < entries.len() ==> is_plain_entry(#[trigger] entries[i])
}

/// Splitting a list gives its entries back.
proof fn lemma_split_list(entries: Seq<Seq<char>>, n: int)
    requires
        1 <= n <= entries.len(),
        all_plain(entries),
    ensures
        split_on(colon_list(entries, n), CharSet::Only(':')) == entries.take(n),
    decreases n,
{
    let sep = CharSet::Only(':');
    assert(is_plain_entry(entries[n - 1]));
    crate::text::law_split_without_separator(entries[n - 1], sep);
    if n > 1 {
        lemma_split_list(entries, n - 1);
        reveal_strlit(":");
        let before = colon_list(entries, n - 1);
        assert(":"@ =~= seq![':']);
        crate::text::law_split_at_separator(before, ':', entries[n - 1], sep);
        assert(entries.take(n) =~= entries.take(n - 1) + seq![entries[n - 1]]);
    } else {
        assert(entries.take(1) =~= seq![entries[0]]);
    }
}

/// Nothing is left out of entries that are not blank.
proof fn lemma_not_blank(entries: Seq<Seq<char>>, n: int)
    requires
        0 <= n <= entries.len(),
        all_plain(entries),
    ensures
        not_blank(entries, n) == entries.take(n),
    decreases n,
{
    if n > 0 {
        lemma_not_blank(entries, n - 1);
        assert(is_plain_entry(entries[n - 1]));
        assert(entries.take(n) =~= entries.take(n - 1).push(entries[n - 1]));
    } else {
        assert(entries.take(0) =~= Seq::empty());
    }
}

/// A search path that is written and read again has the same entries.
pub proof fn law_search_path_reads_back(entries: Seq<Seq<char>>)
    requires
        entries.len() > 0,
        all_plain(entries),
    ensures
        path_entries(Some(colon_list(entries, entries.len() as int))) == entries,
{
    let n = entries.len() as int;
    lemma_split_list(entries, n);
    lemma_not_blank(entries, n);
    assert(entries.take(n) =~= entries);
}

/// The entries that are kept of some pieces are among them and not blank.
proof fn lemma_kept_entries(pieces: Seq<Seq<char>>, n: int)
    requires
        0 <= n <= pieces.len(),
        forall|i: int| 0 <= i < pieces.len() ==> !mentions(#[trigger] pieces[i], CharSet::Only(':')),
    ensures
        all_plain(not_blank(pieces, n)),
    decreases n,
{
    if n > 0 {
        lemma_kept_entries(pieces, n - 1);
    }
}

/// The entries of a search path stand for themselves.
proof fn lemma_path_entries_are_plain(path: Option<Seq<char>>)
    ensures
        all_plain(path_entries(path)),
{
    if let Some(text) = path {
        let pieces = split_on(text, CharSet::Only(':'));
        assert forall|i: int| 0 <= i < pieces.len() implies !mentions(
            #[trigger] pieces[i],
            CharSet::Only(':'),
        ) by {
            crate::text::law_pieces_hold_no_separator(text, CharSet::Only(':'), i);
        }
        lemma_kept_entries(pieces, pieces.len() as int);
    }
}

/// Completing entries that stand for themselves with others that do.
proof fn lemma_completed_is_plain(entries: Seq<Seq<char>>, more: Seq<Seq<char>>, n: int)
    requires
        0 <= n <= more.len(),
        all_plain(entries),
        all_plain(more),
    ensures
        all_plain(completed(entries, more, n)),
    decreases n,
{
    if n > 0 {
        lemma_completed_is_plain(entries, more, n - 1);
        assert(is_plain_entry(more[n - 1]));
    }
}

/// Nothing is missing from entries that hold all others.
proof fn lemma_complete_already(entries: Seq<Seq<char>>, more: Seq<Seq<char>>, n: int)
    requires
        0 <= n <= more.len(),
        forall|j: int| 0 <= j < more.len() ==> entries.contains(#[trigger] more[j]),
    ensures
        completed(entries, more, n) == entries,
    decreases n,
{
    if n > 0 {
        lemma_complete_already(entries, more, n - 1);
        assert(entries.contains(more[n - 1]));
    }
}

/// A text with a character that is not white space is not blank.
proof fn lemma_not_blank_text(s: Seq<char>, i: int)
    requires
        0 <= i < s.len(),
        !CharSet::WhiteSpace.has(s[i]),
    ensures
        trimmed(s).len() > 0,
{
    let set = CharSet::WhiteSpace;
    let rest = front_stripped(s, set);
    lemma_prefix_in_bounds(s, set);
    lemma_suffix_in_bounds(rest, set);
    let n = prefix_in(s, set);
    assert(n <= i);
    assert(rest[i - n] == s[i]);
}

/// Home directories followed by a path without a colon stand for themselves.
proof fn lemma_home_entry(home: Seq<char>, below: Seq<char>)
    requires
        !mentions(home, CharSet::Only(':')),
        !mentions(below, CharSet::Only(':')),
        below.len() > 0,
        below[0] == '/',
    ensures
        is_plain_entry(home + below),
{
    let s = home + below;
    assert(s[home.len() as int] == '/');
    lemma_not_blank_text(s, home.len() as int);
    assert forall|i: int| 0 <= i < s.len() implies !CharSet::Only(':').has(#[trigger] s[i]) by {
        if i < home.len() {
            assert(s[i] == home[i]);
        } else {
            assert(s[i] == below[i - home.len()]);
        }
    }
}

/// The common directories stand for themselves in a search path, unless the home directory has a
/// colon in its name.
proof fn lemma_common_entries_are_plain(home: Option<Seq<char>>)
    requires
        home is Some ==> !mentions(home->0, CharSet::Only(':')),
    ensures
        all_plain(common_entries(home)),
{
    reveal_strlit("/opt/homebrew/bin");
    reveal_strlit("/opt/homebrew/sbin");
    reveal_strlit("/usr/local/bin");
    reveal_strlit("/usr/local/sbin");
    reveal_strlit("/usr/bin");
    reveal_strlit("/bin");
    reveal_strlit("/usr/sbin");
    reveal_strlit("/sbin");
    reveal_strlit("/.local/bin");
    reveal_strlit("/.bun/bin");
    reveal_strlit("/.cargo/bin");
    let nothing = Seq::<char>::empty();
    let all = common_entries(home);
    assert forall|i: int| 0 <= i < all.len() implies is_plain_entry(#[trigger] all[i]) by {
        if i < 8 {
            lemma_home_entry(nothing, all[i]);
            assert(nothing + all[i] =~= all[i]);
        } else if i == 8 {
            lemma_home_entry(home->0, "/.local/bin"@);
        } else if i == 9 {
            lemma_home_entry(home->0, "/.bun/bin"@);
        } else {
            lemma_home_entry(home->0, "/.cargo/bin"@);
        }
    }
}

/// A command that is started from a started command has the same search path, unless the home
/// directory has a colon in its name.
pub proof fn law_launch_path_is_stable(path: Option<Seq<char>>, home: Option<Seq<char>>)
    requires
        home is Some ==> !mentions(home->0, CharSet::Only(':')),
    ensures
        ({
            let entries = launch_entries(path, home);
            launch_entries(Some(colon_list(entries, entries.len() as int)), home) == entries
        }),
{
    let common = common_entries(home);
    let entries = launch_entries(path, home);
    lemma_common_entries_are_plain(home);
    lemma_path_entries_are_plain(path);
    lemma_completed_is_plain(path_entries(path), common, common.len() as int);
    lemma_completed(path_entries(path), common, common.len() as int);
    assert(entries.contains(common[0]));
    law_search_path_reads_back(entries);
    lemma_complete_already(entries, common, common.len() as int);
}

} // verus!
