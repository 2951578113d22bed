use vstd::prelude::*;

use crate::text::{chars_sub_string, chars_to_string, str_chars};

verus! {

// ---------------------------------------------------------------------------
// The comma-separated table of (display name, filename) rows.
// ---------------------------------------------------------------------------

/// Index of the first occurrence of `c` in `s`, or -1 when absent.
pub open spec fn index_of_char(s: Seq<char>, c: char) -> int
    decreases s.len(),
{
    if s.len() == 0 {
        -1
    } else if s[0] == c {
        0
    } else {
        let r = index_of_char(s.drop_first(), c);
        if r == -1 {
            -1
        } else {
            r + 1
        }
    }
}

pub proof fn lemma_index_of_char(s: Seq<char>, c: char)
    ensures
        index_of_char(s, c) == -1 ==> forall|j: int| 0 <= j < s.len() ==> s[j] != c,
        index_of_char(s, c) != -1 ==> {
            let i = index_of_char(s, c);
            &&& 0 <= i < s.len()
            &&& s[i] == c
            &&& forall|j: int| 0 <= j < i ==> s[j] != c
        },
    decreases s.len(),
{
    if s.len() > 0 && s[0] != c {
        let t = s.drop_first();
        assert(t.len() < s.len());
        lemma_index_of_char(t, c);
        assert(forall|j: int| 1 <= j < s.len() ==> s[j] == t[j - 1]);
        if index_of_char(s, c) != -1 {
            let i = index_of_char(s, c);
            assert(s[i] == t[i - 1]);
            assert forall|j: int| 0 <= j < i implies s[j] != c by {
                if j > 0 {
                    assert(s[j] == t[j - 1]);
                }
            }
        }
    }
}

/// `i` is where the first occurrence of `c` stands.
pub proof fn lemma_index_of_char_is(s: Seq<char>, c: char, i: int)
    requires
        0 <= i < s.len(),
        s[i] == c,
        forall|j: int| 0 <= j < i ==> s[j] != c,
    ensures
        index_of_char(s, c) == i,
{
    lemma_index_of_char(s, c);
}

/// `c` does not occur in `s`.
pub proof fn lemma_index_of_char_none(s: Seq<char>, c: char)
    requires
        forall|j: int| 0 <= j < s.len() ==> s[j] != c,
    ensures
        index_of_char(s, c) == -1,
{
    lemma_index_of_char(s, c);
}

/// A line with any single trailing carriage return removed.
pub open spec fn strip_cr(l: Seq<char>) -> Seq<char> {
    if l.len() > 0 && l.last() == '\r' {
        l.drop_last()
    } else {
        l
    }
}

/// A row is well formed when it holds exactly one comma.
pub open spec fn row_ok(l: Seq<char>) -> bool {
    let i = index_of_char(l, ',');
    i != -1 && index_of_char(l.subrange(i + 1, l.len() as int), ',') == -1
}

/// The (display name, filename) pair of a well-formed row.
pub open spec fn row_pair(l: Seq<char>) -> (Seq<char>, Seq<char>) {
    let i = index_of_char(l, ',');
    (l.subrange(0, i), l.subrange(i + 1, l.len() as int))
}

/// Parse a whole table: rows separated by line feeds, an optional carriage
/// return before each line feed, blank lines skipped. `None` when some
/// non-blank line does not hold exactly one comma.
pub open spec fn csv_parse(s: Seq<char>) -> Option<Seq<(Seq<char>, Seq<char>)>>
    decreases s.len(),
    via csv_parse_decreases
{
    if s.len() == 0 {
        Some(seq![])
    } else {
        let i = index_of_char(s, '\n');
        let line = if i == -1 {
            s
        } else {
            s.subrange(0, i)
        };
        let rest = if i == -1 {
            Seq::<char>::empty()
        } else {
            s.subrange(i + 1, s.len() as int)
        };
        let l = strip_cr(line);
        match csv_parse(rest) {
            Option::None => Option::None,
            Option::Some(tail) => {
                if l.len() == 0 {
                    Some(tail)
                } else if row_ok(l) {
                    Some(seq![row_pair(l)] + tail)
                } else {
                    Option::None
                }
            },
        }
    }
}

#[via_fn]
proof fn csv_parse_decreases(s: Seq<char>) {
    lemma_index_of_char(s, '\n');
}

/// No two rows share a filename.
pub open spec fn distinct_filenames(ps: Seq<(Seq<char>, Seq<char>)>) -> bool {
    forall|i: int, j: int| 0 <= i < j < ps.len() ==> (#[trigger] ps[i]).1 != (#[trigger] ps[j]).1
}

/// The rows that two parallel columns of strings stand for.
pub open spec fn pairs_of(names: Seq<String>, files: Seq<String>) -> Seq<(Seq<char>, Seq<char>)> {
    Seq::new(names.len(), |k: int| (names[k]@, files[k]@))
}

// ---------------------------------------------------------------------------
// Display names.
// ---------------------------------------------------------------------------

/// What one character of a raw filename contributes to the cosmetic fallback
/// name: hyphens become spaces, apostrophes disappear.
pub open spec fn disp_one(c: char) -> Seq<char> {
    if c == '-' {
        seq![' ']
    } else if c == '\'' {
        seq![]
    } else {
        seq![c]
    }
}

/// The cosmetic reshaping of a whole raw filename, before title-casing.
pub open spec fn disp_prep(s: Seq<char>) -> Seq<char>
    decreases s.len(),
{
    if s.len() == 0 {
        seq![]
    } else {
        disp_prep(s.drop_last()) + disp_one(s.last())
    }
}

/// The title-cased form of a sequence of characters.
pub uninterp spec fn title_case_of(s: Seq<char>) -> Seq<char>;

/// Relies on Inflector's `to_title_case`: its result is a function of the
/// input characters alone.
#[verifier::external_body]
fn title_case(s: &str) -> (r: String)
    ensures
        r@ == title_case_of(s@),
{
    inflector::Inflector::to_title_case(s)
}

// ---------------------------------------------------------------------------
// The bidirectional name index.
// ---------------------------------------------------------------------------

/// A loaded table: row order assigns the index, filenames are unique, and
/// every index pairs one filename with one display name.
pub struct List {
    /// Filenames by internal index.
    pub filenames: Vec<String>,
    /// Display names by internal index.
    pub names: Vec<String>,
}

impl List {
    /// The bijection invariant: as many display names as filenames, and no
    /// filename appears twice.
    pub open spec fn wf(self) -> bool {
        &&& self.names.len() == self.filenames.len()
        &&& forall|i: int, j: int|
            0 <= i < j < self.filenames.len() ==> (#[trigger] self.filenames[i])@ != (
            #[trigger] self.filenames[j])@
    }

    pub open spec fn spec_len(self) -> nat {
        self.filenames.len() as nat
    }

    pub open spec fn has_filename(self, f: Seq<char>) -> bool {
        exists|i: int| 0 <= i < self.spec_len() && (#[trigger] self.filenames[i])@ == f
    }

    /// The index paired with a filename that is present in the table.
    pub open spec fn spec_index_of(self, f: Seq<char>) -> int {
        choose|i: int| 0 <= i < self.spec_len() && (#[trigger] self.filenames[i])@ == f
    }

    pub fn len(&self) -> (r: usize)
        ensures
            r == self.spec_len(),
    {
        self.filenames.len()
    }

    /// Filename for an internal index, if the index is in range.
    pub fn get_by_id(&self, id: usize) -> (r: Option<&String>)
        ensures
            match r {
                Option::Some(f) => id < self.spec_len() && f@ == self.filenames[id as int]@,
                Option::None => id >= self.spec_len(),
            },
    {
        if id < self.filenames.len() {
            Some(&self.filenames[id])
        } else {
            None
        }
    }

    /// Load a table from its comma-separated text. Row order assigns the
    /// indices; a table whose text is malformed or holds a filename twice is
    /// rejected whole.
    #[verifier::rlimit(60)]
    pub fn read(csv: &str) -> (r: Option<List>)
        ensures
            match r {
                Option::Some(l) => {
                    &&& csv_parse(csv@) is Some
                    &&& distinct_filenames(csv_parse(csv@)->Some_0)
                    &&& l.wf()
                    &&& pairs_of(l.names@, l.filenames@) == csv_parse(csv@)->Some_0
                },
                Option::None => csv_parse(csv@) is None || !distinct_filenames(
                    csv_parse(csv@)->Some_0,
                ),
            },
    {
        let cs = str_chars(csv);
        let n = cs.len();
        let mut names: Vec<String> = Vec::new();
        let mut files: Vec<String> = Vec::new();
        let mut p: usize = 0;
        proof {
            assert(cs@.subrange(0, n as int) =~= cs@);
            if csv_parse(cs@) is Some {
                assert(pairs_of(names@, files@) + csv_parse(cs@)->Some_0 =~= csv_parse(
                    cs@,
                )->Some_0);
            }
        }
        while p < n
            invariant
                cs@ == csv@,
                n == cs.len(),
                p <= n,
                names.len() == files.len(),
                match csv_parse(cs@.subrange(p as int, n as int)) {
                    Option::None => csv_parse(cs@) is None,
                    Option::Some(t) => csv_parse(cs@) == Some(
                        pairs_of(names@, files@) + t,
                    ),
                },
            decreases n - p,
        {
            let ghost sub = cs@.subrange(p as int, n as int);
            // Find the end of the current line.
            let mut q: usize = p;
            while q < n && cs[q] != '\n'
                invariant
                    p <= q <= n == cs.len(),
                    forall|j: int| p <= j < q ==> cs@[j] != '\n',
                decreases n - q,
            {
                q = q + 1;
            }
            proof {
                if q < n {
                    lemma_index_of_char_is(sub, '\n', q - p);
                } else {
                    lemma_index_of_char_none(sub, '\n');
                }
            }
            let ghost line = if q < n {
                sub.subrange(0, q - p)
            } else {
                sub
            };
            let ghost rest = if q < n {
                sub.subrange(q - p + 1, sub.len() as int)
            } else {
                Seq::<char>::empty()
            };
            proof {
                assert(line =~= cs@.subrange(p as int, q as int));
                if q < n {
                    assert(rest =~= cs@.subrange(q + 1, n as int));
                }
            }
            // Strip a trailing carriage return.
            let e: usize = if q > p && cs[q - 1] == '\r' {
                q - 1
            } else {
                q
            };
            let ghost l = strip_cr(line);
            proof {
                assert(l =~= cs@.subrange(p as int, e as int));
            }
            let next_p = if q < n {
                q + 1
            } else {
                n
            };
            proof {
                assert(rest =~= cs@.subrange(next_p as int, n as int));
            }
            if e == p {
                // A blank line carries no row.
                p = next_p;
            } else {
                // Find the comma that separates the two fields.
                let mut m: usize = p;
                while m < e && cs[m] != ','
                    invariant
                        p <= m <= e <= n == cs.len(),
                        forall|j: int| p <= j < m ==> cs@[j] != ',',
                    decreases e - m,
                {
                    m = m + 1;
                }
                if m == e {
                    proof {
                        lemma_index_of_char_none(l, ',');
                    }
                    return None;
                }
                proof {
                    lemma_index_of_char_is(l, ',', m - p);
                }
                // The second field may not hold another comma.
                let mut m2: usize = m + 1;
                while m2 < e && cs[m2] != ','
                    invariant
                        m + 1 <= m2 <= e <= n == cs.len(),
                        forall|j: int| m + 1 <= j < m2 ==> cs@[j] != ',',
                    decreases e - m2,
                {
                    m2 = m2 + 1;
                }
                proof {
                    assert(l.subrange(m - p + 1, l.len() as int) =~= cs@.subrange(
                        m + 1,
                        e as int,
                    ));
                }
                if m2 < e {
                    proof {
                        let tail2 = l.subrange(m - p + 1, l.len() as int);
                        assert(tail2[m2 - m - 1] == ',');
                        lemma_index_of_char(tail2, ',');
                        assert(index_of_char(tail2, ',') != -1);
                        assert(!row_ok(l));
                        assert(csv_parse(sub) is None);
                    }
                    return None;
                }
                proof {
                    lemma_index_of_char_none(l.subrange(m - p + 1, l.len() as int), ',');
                    assert(row_ok(l));
                    assert(row_pair(l).0 =~= cs@.subrange(p as int, m as int));
                    assert(row_pair(l).1 =~= cs@.subrange(m + 1, e as int));
                }
                let name = chars_sub_string(&cs, p, m);
                let file = chars_sub_string(&cs, m + 1, e);
                let ghost old_names = names@;
                let ghost old_files = files@;
                names.push(name);
                files.push(file);
                proof {
                    assert(pairs_of(names@, files@) =~= pairs_of(old_names, old_files) + seq![
                        row_pair(l),
                    ]);
                    if csv_parse(rest) is Some {
                        assert(pairs_of(old_names, old_files) + (seq![row_pair(l)] + csv_parse(
                            rest,
                        )->Some_0) =~= pairs_of(names@, files@) + csv_parse(rest)->Some_0);
                    }
                }
                p = next_p;
            }
        }
        proof {
            assert(cs@.subrange(n as int, n as int) =~= Seq::<char>::empty());
            assert(pairs_of(names@, files@) + Seq::<(Seq<char>, Seq<char>)>::empty() =~= pairs_of(
                names@,
                files@,
            ));
        }
        // Reject a table in which two rows share a filename.
        let count = files.len();
        let mut i: usize = 0;
        while i < count
            invariant
                count == files.len() == names.len(),
                i <= count,
                csv_parse(csv@) == Some(pairs_of(names@, files@)),
                forall|a: int, b: int|
                    0 <= a < b < count && a < i ==> (#[trigger] files@[a])@ != (
                    #[trigger] files@[b])@,
            decreases count - i,
        {
            let mut j: usize = i + 1;
            while j < count
                invariant
                    i < j <= count == files.len(),
                    names.len() == files.len(),
                    csv_parse(csv@) == Some(pairs_of(names@, files@)),
                    forall|b: int| i < b < j ==> (#[trigger] files@[b])@ != files@[i as int]@,
                decreases count - j,
            {
                if files[i] == files[j] {
                    proof {
                        assert(pairs_of(names@, files@)[i as int].1 == pairs_of(
                            names@,
                            files@,
                        )[j as int].1);
                        assert(!distinct_filenames(pairs_of(names@, files@)));
                    }
                    return None;
                }
                j = j + 1;
            }
            i = i + 1;
        }
        proof {
            assert forall|a: int, b: int|
                0 <= a < b < pairs_of(names@, files@).len() implies (#[trigger] pairs_of(
                names@,
                files@,
            )[a]).1 != (#[trigger] pairs_of(names@, files@)[b]).1 by {
                assert(files@[a]@ != files@[b]@);
            }
        }
        let l = List { filenames: files, names };
        proof {
            assert(l.wf());
        }
        Some(l)
    }

    /// The display name for a filename: the paired name when the filename is
    /// a table entry, otherwise a cosmetic reshaping of the raw filename.
    pub fn format_name(&self, filename: &str) -> (r: String)
        requires
            self.wf(),
        ensures
            self.has_filename(filename@) ==> r@ == self.names[self.spec_index_of(filename@)]@,
            !self.has_filename(filename@) ==> r@ == title_case_of(disp_prep(filename@)),
    {
        match self.lookup_by_filename(filename) {
            Option::Some(i) => {
                proof {
                    let k = self.spec_index_of(filename@);
                    assert(0 <= k < self.spec_len() && self.filenames[k]@ == filename@);
                    if k != i {
                        assert(self.filenames[k]@ != self.filenames[i as int]@);
                    }
                }
                self.names[i].clone()
            },
            Option::None => {
                let cs = str_chars(filename);
                let mut out: Vec<char> = Vec::new();
                let mut i: usize = 0;
                while i < cs.len()
                    invariant
                        i <= cs.len(),
                        cs@ == filename@,
                        out@ == disp_prep(filename@.subrange(0, i as int)),
                    decreases cs.len() - i,
                {
                    let c = cs[i];
                    if c == '-' {
                        out.push(' ');
                    } else if c == '\'' {
                    } else {
                        out.push(c);
                    }
                    proof {
                        assert(filename@.subrange(0, i + 1).drop_last() =~= filename@.subrange(
                            0,
                            i as int,
                        ));
                        assert(out@ =~= disp_prep(filename@.subrange(0, i + 1)));
                    }
                    i = i + 1;
                }
                proof {
                    assert(filename@.subrange(0, filename@.len() as int) =~= filename@);
                }
                let prepared = chars_to_string(&out);
                title_case(prepared.as_str())
            },
        }
    }

    /// Internal index for a filename, if the filename is in the table.
    pub fn lookup_by_filename(&self, f: &str) -> (r: Option<usize>)
        ensures
            match r {
                Option::Some(i) => {
                    &&& self.has_filename(f@)
                    &&& i < self.spec_len()
                    &&& self.filenames[i as int]@ == f@
                },
                Option::None => !self.has_filename(f@),
            },
    {
        let fs = String::from_str(f);
        let n = self.filenames.len();
        let mut i: usize = 0;
        while i < n
            invariant
                n == self.spec_len(),
                i <= n,
                fs@ == f@,
                forall|j: int| 0 <= j < i ==> (#[trigger] self.filenames[j])@ != f@,
            decreases n - i,
        {
            if self.filenames[i] == fs {
                return Some(i);
            }
            i = i + 1;
        }
        None
    }
}

/// The two lookup directions are mutual inverses over the whole table: the
/// filename stored at an index is found back at exactly that index, and an
/// existing filename looks up to an index that carries it.
pub proof fn lemma_lookup_bijection(l: List, i: int)
    requires
        l.wf(),
        0 <= i < l.spec_len(),
    ensures
        l.has_filename(l.filenames[i]@),
        l.spec_index_of(l.filenames[i]@) == i,
{
    let f = l.filenames[i]@;
    assert(l.has_filename(f));
    let k = l.spec_index_of(f);
    assert(0 <= k < l.spec_len() && l.filenames[k]@ == f);
    if k != i {
        if k < i {
            assert(l.filenames[k]@ != l.filenames[i]@);
        } else {
            assert(l.filenames[i]@ != l.filenames[k]@);
        }
    }
}

/// An existing filename looks up to an index in range that carries it.
pub proof fn lemma_lookup_gives_filename(l: List, f: Seq<char>)
    requires
        l.wf(),
        l.has_filename(f),
    ensures
        0 <= l.spec_index_of(f) < l.spec_len(),
        l.filenames[l.spec_index_of(f)]@ == f,
{
}

/// For every row of a loaded table, the filename of that row looks up to the
/// row's own index, and the display name paired with that index is the row's
/// display name: looking up a filename and fetching the display name
/// round-trips to the name it was loaded with.
pub proof fn lemma_display_round_trip(l: List, ps: Seq<(Seq<char>, Seq<char>)>, i: int)
    requires
        l.wf(),
        pairs_of(l.names@, l.filenames@) == ps,
        0 <= i < ps.len(),
    ensures
        l.has_filename(ps[i].1),
        l.spec_index_of(ps[i].1) == i,
        l.names[i]@ == ps[i].0,
{
    assert(l.filenames[i]@ == ps[i].1);
    lemma_lookup_bijection(l, i);
}

} // verus!
