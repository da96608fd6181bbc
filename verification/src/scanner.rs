//! The ifcfg files of a configuration directory.

use vstd::prelude::*;

verus! {

/// One entry that a search of the configuration directory found.
#[derive(Debug, PartialEq, Eq)]
pub enum ScanEntry {
    /// A file's path.
    Path(String),
    /// A path that is not valid Unicode.
    NonUnicodePath,
    /// An entry that could not be read.
    Unreadable,
}

/// The glob pattern of the ifcfg files in a directory.
pub open spec fn config_pattern(config_dir: Seq<char>) -> Seq<char> {
    config_dir + "/ifcfg-*"@
}

/// The glob pattern of the ifcfg files in `config_dir`.
pub fn config_glob_pattern(config_dir: &str) -> (r: String)
    ensures
        r@ == config_pattern(config_dir@),
{
    let mut pattern = String::from_str(config_dir);
    pattern.append("/ifcfg-*");
    pattern
}

/// The paths among the entries, in order.
pub open spec fn paths_of(entries: Seq<ScanEntry>) -> Seq<Seq<char>>
    decreases entries.len(),
{
    if entries.len() == 0 {
        Seq::empty()
    } else {
        let p = paths_of(entries.drop_last());
        match entries.last() {
            ScanEntry::Path(s) => p.push(s@),
            _ => p,
        }
    }
}

/// Whether some entry is a path that is not valid Unicode.
pub open spec fn has_non_unicode_path(entries: Seq<ScanEntry>) -> bool {
    exists|i: int| 0 <= i < entries.len() && #[trigger] entries[i] == ScanEntry::NonUnicodePath
}

/// The paths of the ifcfg files that a search found, in the order found;
/// entries that could not be read are passed over. `None` when a path is
/// not valid Unicode or when no path was found.
pub fn config_paths(entries: &Vec<ScanEntry>) -> (r: Option<Vec<String>>)
    ensures
        r is None <==> (has_non_unicode_path(entries@) || paths_of(entries@).len() == 0),
        r matches Some(v) ==> v@.map_values(|s: String| s@) == paths_of(entries@),
{
    let mut paths: Vec<String> = Vec::new();
    let mut i: usize = 0;
    proof {
        assert(entries@.take(0) =~= Seq::<ScanEntry>::empty());
    }
    while i < entries.len()
        invariant
            i <= entries@.len(),
            paths@.map_values(|s: String| s@) == paths_of(entries@.take(i as int)),
            !has_non_unicode_path(entries@.take(i as int)),
        decreases entries.len() - i,
    {
        proof {
            assert(entries@.take(i + 1).drop_last() =~= entries@.take(i as int));
            assert(entries@.take(i + 1).last() == entries@[i as int]);
        }
        let ghost old_paths = paths@;
        match &entries[i] {
            ScanEntry::Path(p) => {
                paths.push(p.clone());
                proof {
                    assert(paths@.map_values(|s: String| s@) =~= old_paths.map_values(|s: String| s@).push(
                        p@,
                    ));
                }
            },
            ScanEntry::NonUnicodePath => {
                proof {
                    assert(entries@[i as int] == ScanEntry::NonUnicodePath);
                }
                return None;
            },
            ScanEntry::Unreadable => {},
        }
        proof {
            assert forall|j: int| 0 <= j < i + 1 implies #[trigger] entries@.take(i + 1)[j]
                != ScanEntry::NonUnicodePath by {
                if j < i {
                    assert(entries@.take(i + 1)[j] == entries@.take(i as int)[j]);
                }
            }
        }
        i = i + 1;
    }
    proof {
        assert(entries@.take(entries@.len() as int) =~= entries@);
    }
    if paths.len() == 0 {
        None
    } else {
        Some(paths)
    }
}


/// One entry found gives its path if it is a path, and nothing otherwise.
pub proof fn law_paths_of_one(e: ScanEntry)
    ensures
        paths_of(seq![e]) == (match e {
            ScanEntry::Path(s) => seq![s@],
            _ => Seq::<Seq<char>>::empty(),
        }),
{
    assert(seq![e].drop_last() =~= Seq::<ScanEntry>::empty());
    assert(seq![e].last() == e);
    assert(paths_of(Seq::<ScanEntry>::empty()) == Seq::<Seq<char>>::empty());
    match e {
        ScanEntry::Path(s) => {
            assert(Seq::<Seq<char>>::empty().push(s@) =~= seq![s@]);
        },
        _ => {},
    }
}

/// No path is lost: the paths of two runs of entries found one after the
/// other are the paths of the first followed by the paths of the second,
/// however many there are.
pub proof fn law_paths_of_concat(a: Seq<ScanEntry>, b: Seq<ScanEntry>)
    ensures
        paths_of(a + b) == paths_of(a) + paths_of(b),
    decreases b.len(),
{
    if b.len() == 0 {
        assert(a + b =~= a);
        assert(paths_of(a) + paths_of(b) =~= paths_of(a));
    } else {
        let b0 = b.drop_last();
        law_paths_of_concat(a, b0);
        assert((a + b).drop_last() =~= a + b0);
        assert((a + b).last() == b.last());
        match b.last() {
            ScanEntry::Path(s) => {
                assert((paths_of(a) + paths_of(b0)).push(s@) =~= paths_of(a) + paths_of(b0).push(s@));
            },
            _ => {},
        }
    }
}

/// Every path found is kept: there are as many paths as path entries.
pub proof fn law_paths_of_count(e: Seq<ScanEntry>)
    ensures
        paths_of(e).len() == e.filter(|x: ScanEntry| x is Path).len(),
    decreases e.len(),
{
    reveal_with_fuel(Seq::<_>::filter, 1);
    if e.len() > 0 {
        law_paths_of_count(e.drop_last());
    }
}


/// Only a path that is not valid Unicode spoils a search: two runs of entries
/// hold one exactly when one of the runs does, and of single entries only
/// such a path does.
pub proof fn law_non_unicode_path(a: Seq<ScanEntry>, b: Seq<ScanEntry>, e: ScanEntry)
    ensures
        has_non_unicode_path(a + b) == (has_non_unicode_path(a) || has_non_unicode_path(b)),
        has_non_unicode_path(seq![e]) == (e == ScanEntry::NonUnicodePath),
{
    if has_non_unicode_path(a + b) {
        let i = choose|i: int| 0 <= i < (a + b).len() && #[trigger] (a + b)[i] == ScanEntry::NonUnicodePath;
        if i < a.len() {
            assert(a[i] == (a + b)[i]);
        } else {
            assert(b[i - a.len()] == (a + b)[i]);
        }
    }
    if has_non_unicode_path(a) {
        let i = choose|i: int| 0 <= i < a.len() && #[trigger] a[i] == ScanEntry::NonUnicodePath;
        assert((a + b)[i] == a[i]);
    }
    if has_non_unicode_path(b) {
        let i = choose|i: int| 0 <= i < b.len() && #[trigger] b[i] == ScanEntry::NonUnicodePath;
        assert((a + b)[a.len() + i] == b[i]);
    }
    if e == ScanEntry::NonUnicodePath {
        assert(seq![e][0] == e);
    }
}

} // verus!
