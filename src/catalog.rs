//! The catalog: the migration files of a directory, ordered by version.
use vstd::prelude::*;
use vstd::string::*;
use vstd::seq_lib::*;

verus! {

/// Whether a character is an ASCII decimal digit.
pub open spec fn is_digit(c: char) -> bool {
    '0' <= c && c <= '9'
}

/// The value of an ASCII decimal digit.
pub open spec fn digit_value(c: char) -> int {
    c as int - '0' as int
}

/// Whether a file name follows the migration naming rule: four ASCII
/// digits followed by `.sql`.
pub open spec fn is_migration_name(s: Seq<char>) -> bool {
    &&& s.len() == 8
    &&& is_digit(s[0]) && is_digit(s[1]) && is_digit(s[2]) && is_digit(s[3])
    &&& s[4] == '.' && s[5] == 's' && s[6] == 'q' && s[7] == 'l'
}

/// The version that a migration file name carries in its four digits.
pub open spec fn version_of(s: Seq<char>) -> int {
    1000 * digit_value(s[0]) + 100 * digit_value(s[1]) + 10 * digit_value(s[2]) + digit_value(
        s[3],
    )
}

/// The abstract value of a catalog entry: its version and its file name.
pub type MigrationView = (i32, Seq<char>);

/// One migration file: the version it carries and its name in the directory.
pub struct MigrationFile {
    pub version: i32,
    pub filename: String,
}

impl View for MigrationFile {
    type V = MigrationView;

    open spec fn view(&self) -> MigrationView {
        (self.version, self.filename@)
    }
}

impl MigrationFile {
    /// A copy of the entry.
    pub fn duplicate(&self) -> (r: MigrationFile)
        ensures
            r@ == self@,
    {
        MigrationFile { version: self.version, filename: self.filename.clone() }
    }
}

/// The views of a sequence of entries.
pub open spec fn views(s: Seq<MigrationFile>) -> Seq<MigrationView> {
    s.map_values(|m: MigrationFile| m@)
}

/// The entries that a list of directory names yields, in the order of the
/// list: one for each name that follows the naming rule.
pub open spec fn entries_of(names: Seq<Seq<char>>) -> Seq<MigrationView>
    decreases names.len(),
{
    if names.len() == 0 {
        Seq::empty()
    } else {
        let rest = entries_of(names.drop_last());
        let n = names.last();
        if is_migration_name(n) {
            rest.push((version_of(n) as i32, n))
        } else {
            rest
        }
    }
}

/// Whether entries are ordered by version, lowest first.
pub open spec fn sorted_by_version(s: Seq<MigrationView>) -> bool {
    forall|i: int, j: int| 0 <= i <= j < s.len() ==> s[i].0 <= s[j].0
}

/// Whether entries are ordered by version with no version twice.
pub open spec fn strictly_ascending(s: Seq<MigrationView>) -> bool {
    forall|i: int, j: int| 0 <= i < j < s.len() ==> s[i].0 < s[j].0
}

/// The version of a migration file name, or `None` where the name does not
/// follow the naming rule.
pub fn parse_version(name: &str) -> (r: Option<i32>)
    ensures
        is_migration_name(name@) ==> r == Some(version_of(name@) as i32),
        !is_migration_name(name@) ==> r is None,
{
    let n = name.unicode_len();
    if n != 8 {
        return None;
    }
    let c0 = name.get_char(0);
    let c1 = name.get_char(1);
    let c2 = name.get_char(2);
    let c3 = name.get_char(3);
    let c4 = name.get_char(4);
    let c5 = name.get_char(5);
    let c6 = name.get_char(6);
    let c7 = name.get_char(7);
    if !('0' <= c0 && c0 <= '9' && '0' <= c1 && c1 <= '9' && '0' <= c2 && c2 <= '9' && '0' <= c3
        && c3 <= '9') {
        return None;
    }
    if !(c4 == '.' && c5 == 's' && c6 == 'q' && c7 == 'l') {
        return None;
    }
    let d0 = (c0 as u32 - '0' as u32) as i32;
    let d1 = (c1 as u32 - '0' as u32) as i32;
    let d2 = (c2 as u32 - '0' as u32) as i32;
    let d3 = (c3 as u32 - '0' as u32) as i32;
    Some(1000 * d0 + 100 * d1 + 10 * d2 + d3)
}

/// A migration file name is fixed by its version: its four digits are the
/// version's.
pub proof fn lemma_version_fixes_name(a: Seq<char>, b: Seq<char>)
    requires
        is_migration_name(a),
        is_migration_name(b),
        version_of(a) == version_of(b),
    ensures
        a == b,
        0 <= version_of(a) <= 9999,
{
    assert(digit_value(a[0]) == digit_value(b[0]));
    assert(digit_value(a[1]) == digit_value(b[1]));
    assert(digit_value(a[2]) == digit_value(b[2]));
    assert(a[0] == b[0] && a[1] == b[1] && a[2] == b[2] && a[3] == b[3]);
    assert(a =~= b);
}

/// Whether a catalog entry is what a migration file name yields.
pub open spec fn well_named(m: MigrationView) -> bool {
    is_migration_name(m.1) && m.0 as int == version_of(m.1)
}

proof fn lemma_insert_multiset(s: Seq<MigrationView>, p: int, e: MigrationView)
    requires
        0 <= p <= s.len(),
    ensures
        s.insert(p, e).to_multiset() =~= s.to_multiset().insert(e),
{
    let a = s.subrange(0, p);
    let b = s.subrange(p, s.len() as int);
    assert(s =~= a + b);
    assert(s.insert(p, e) =~= a + (seq![e] + b));
    lemma_multiset_commutative(a, b);
    lemma_multiset_commutative(seq![e], b);
    lemma_multiset_commutative(a, seq![e] + b);
    assert(seq![e] =~= Seq::<MigrationView>::empty().push(e));
    broadcast use group_to_multiset_ensures;

}

/// Builds the catalog from the names of a directory's entries, in any order:
/// the names that follow the naming rule, each with its version, ordered by
/// version. Two entries of one version have one name, as the name is the
/// version's four digits, so the order is also that of version and name.
pub fn build_catalog(names: &Vec<String>) -> (r: Vec<MigrationFile>)
    ensures
        sorted_by_version(views(r@)),
        names@.map_values(|s: String| s@).no_duplicates() ==> strictly_ascending(views(r@)),
        forall|k: int| 0 <= k < r@.len() ==> well_named(#[trigger] r@[k]@),
        views(r@).to_multiset() == entries_of(names@.map_values(|s: String| s@)).to_multiset(),
{
    let ghost all = names@.map_values(|s: String| s@);
    let mut out: Vec<MigrationFile> = Vec::new();
    let mut i: usize = 0;
    assert(views(out@) =~= entries_of(all.take(0)));
    while i < names.len()
        invariant
            i <= names.len(),
            all == names@.map_values(|s: String| s@),
            sorted_by_version(views(out@)),
            all.no_duplicates() ==> strictly_ascending(views(out@)),
            forall|k: int|
                0 <= k < out@.len() ==> well_named(#[trigger] out@[k]@) && all.take(i as int).contains(
                    out@[k]@.1,
                ),
            views(out@).to_multiset() == entries_of(all.take(i as int)).to_multiset(),
        decreases names.len() - i,
    {
        broadcast use group_to_multiset_ensures;

        assert(all.take(i + 1).drop_last() =~= all.take(i as int));
        assert(all.take(i + 1).last() == names@[i as int]@);
        match parse_version(names[i].as_str()) {
            Some(v) => {
                let mut p: usize = 0;
                while p < out.len() && out[p].version <= v
                    invariant
                        p <= out.len(),
                        forall|k: int| 0 <= k < p ==> out@[k].version <= v,
                    decreases out.len() - p,
                {
                    p = p + 1;
                }
                let m = MigrationFile { version: v, filename: names[i].clone() };
                let ghost before = views(out@);
                let ghost n = names@[i as int]@;
                proof {
                    assert(0 <= version_of(n) <= 9999);
                    assert forall|k: int| 0 <= k < before.len() && all.no_duplicates() implies before[k].0
                        != v by {
                        assert(before[k] == out@[k]@);
                        if before[k].0 == v {
                            lemma_version_fixes_name(before[k].1, n);
                            let j = choose|j: int| 0 <= j < i && all.take(i as int)[j] == before[k].1;
                            assert(all[j] == all[i as int]);
                        }
                    }
                    assert(p < out.len() ==> before[p as int].0 > v);
                    assert(forall|k: int| 0 <= k < p ==> before[k].0 <= v);
                }
                let ghost old_out = out@;
                out.insert(p, m);
                proof {
                    let vo = views(out@);
                    assert(vo =~= before.insert(p as int, m@));
                    before.insert_ensures(p as int, m@);
                    lemma_insert_multiset(before, p as int, m@);
                    assert forall|a: int, b: int| 0 <= a <= b < vo.len() implies vo[a].0
                        <= vo[b].0 by {
                        if b < p {
                            assert(vo[a] == before[a] && vo[b] == before[b]);
                        } else if a > p {
                            assert(vo[a] == before[a - 1] && vo[b] == before[b - 1]);
                        } else if a == p && b == p {
                        } else if a == p {
                            assert(vo[b] == before[b - 1]);
                            assert(before[p as int].0 <= before[b - 1].0);
                        } else if b == p {
                            assert(vo[a] == before[a]);
                        } else {
                            assert(vo[a] == before[a] && vo[b] == before[b - 1]);
                        }
                    }
                    assert(m@ == (version_of(names@[i as int]@) as i32, names@[i as int]@));
                    assert forall|k: int| 0 <= k < out@.len() implies well_named(#[trigger] out@[k]@)
                        && all.take(i + 1).contains(out@[k]@.1) by {
                        assert(vo[k] == out@[k]@);
                        if k < p {
                            assert(vo[k] == before[k]);
                            assert(before[k] == old_out[k]@);
                        } else if k > p {
                            assert(vo[k] == before[k - 1]);
                            assert(before[k - 1] == old_out[k - 1]@);
                        }
                        if k != p {
                            let x = vo[k].1;
                            let j = choose|j: int| 0 <= j < i && all.take(i as int)[j] == x;
                            assert(all.take(i + 1)[j] == x);
                        } else {
                            assert(all.take(i + 1)[i as int] == n);
                        }
                    }
                    if all.no_duplicates() {
                        assert forall|a: int, b: int| 0 <= a < b < vo.len() implies vo[a].0
                            < vo[b].0 by {
                            if b < p {
                                assert(vo[a] == before[a] && vo[b] == before[b]);
                            } else if a > p {
                                assert(vo[a] == before[a - 1] && vo[b] == before[b - 1]);
                            } else if a == p {
                                assert(vo[b] == before[b - 1]);
                            } else if b == p {
                                assert(vo[a] == before[a]);
                            } else {
                                assert(vo[a] == before[a] && vo[b] == before[b - 1]);
                            }
                        }
                    }
                    assert(entries_of(all.take(i + 1)) == entries_of(all.take(i as int)).push(m@));
                }
            },
            None => {
                assert forall|k: int| 0 <= k < out@.len() implies all.take(i + 1).contains(
                    #[trigger] out@[k]@.1,
                ) by {
                    let j = choose|j: int| 0 <= j < i && all.take(i as int)[j] == out@[k]@.1;
                    assert(all.take(i + 1)[j] == out@[k]@.1);
                }
                assert(entries_of(all.take(i + 1)) == entries_of(all.take(i as int)));
            },
        }
        i = i + 1;
    }
    assert(all.take(names.len() as int) =~= all);
    out
}

} // verus!
