use vstd::prelude::*;

use crate::list::List;
use crate::pokemon::{region_hi, region_lo, region_of, Error, Region, Selection};
use crate::text::{parses_as_usize, usize_value};

verus! {

/// Relies on rand's `thread_rng` and `Rng::gen_range` over `0..n`: the draw
/// lies below `n`.
#[verifier::external_body]
fn rand_below(n: usize) -> (r: usize)
    requires
        n >= 1,
    ensures
        r < n,
{
    rand::Rng::gen_range(&mut rand::thread_rng(), 0..n)
}

/// What a uniform draw over the whole table yields: some filename of the
/// table, and a filename at all exactly when the table is not empty.
pub open spec fn any_outcome(l: List, r: Result<String, Error>) -> bool {
    &&& (r is Ok <==> l.spec_len() > 0)
    &&& (r is Ok ==> exists|i: int|
        0 <= i < l.spec_len() && r->Ok_0@ == (#[trigger] l.filenames[i])@)
    &&& (r is Err ==> r->Err_0 == Error::EmptyList)
}

/// What a uniform draw over a region yields: a filename whose index lies in
/// the region's inclusive range; success is owed whenever the table covers
/// the whole range, and failure means it did not.
pub open spec fn region_outcome(region: Region, l: List, r: Result<String, Error>) -> bool {
    &&& (r is Ok ==> exists|i: int|
        region_lo(region) <= i <= region_hi(region) && i < l.spec_len() && r->Ok_0@ == (
        #[trigger] l.filenames[i])@)
    &&& (l.spec_len() > region_hi(region) ==> r is Ok)
    &&& (r is Err ==> r->Err_0 == Error::MissingEntry && l.spec_len() <= region_hi(region))
}

/// Draw a uniform entry of the whole table.
pub fn sample_any(list: &List) -> (r: Result<String, Error>)
    ensures
        any_outcome(*list, r),
{
    let n = list.len();
    if n == 0 {
        return Err(Error::EmptyList);
    }
    let i = rand_below(n);
    Ok(list.filenames[i].clone())
}

/// Draw a uniform entry of a region's range.
pub fn sample_region(region: Region, list: &List) -> (r: Result<String, Error>)
    ensures
        region_outcome(region, *list, r),
{
    let (lo, hi) = region.bounds();
    let i = lo + rand_below(hi - lo + 1);
    if i < list.len() {
        Ok(list.filenames[i].clone())
    } else {
        Err(Error::MissingEntry)
    }
}

/// Roll whether a probabilistically shiny sprite is due, at a one-in-`rate`
/// chance. A rate of one makes it certain.
pub fn rate_is_shiny(rate: u32) -> (r: bool)
    requires
        rate >= 1,
    ensures
        rate == 1 ==> r,
{
    let draw = rand_below(rate as usize);
    draw == 0
}

// ---------------------------------------------------------------------------
// Random requests.
// ---------------------------------------------------------------------------

/// What a candidate token of a random list yields once drawn: a number is
/// evaluated as an identifier (zero meaning any entry), a region token
/// triggers one further draw over that region, and anything else passes
/// through verbatim.
pub open spec fn candidate_gives(l: List, c: Seq<char>, out: Seq<char>) -> bool {
    if parses_as_usize(c) {
        let n = usize_value(c);
        if n == 0 {
            exists|i: int| 0 <= i < l.spec_len() && out == (#[trigger] l.filenames[i])@
        } else {
            n <= l.spec_len() && out == l.filenames[n - 1]@
        }
    } else if region_of(c) is Some {
        exists|i: int|
            region_lo(region_of(c)->Some_0) <= i <= region_hi(region_of(c)->Some_0) && i
                < l.spec_len() && out == (#[trigger] l.filenames[i])@
    } else {
        out == c
    }
}

/// A candidate that cannot fail against this table, whichever way the draws
/// fall.
pub open spec fn candidate_safe(l: List, c: Seq<char>) -> bool {
    if parses_as_usize(c) {
        let n = usize_value(c);
        if n == 0 {
            l.spec_len() > 0
        } else {
            n <= l.spec_len()
        }
    } else if region_of(c) is Some {
        l.spec_len() > region_hi(region_of(c)->Some_0)
    } else {
        true
    }
}

/// A candidate list holding just the Kanto region token can only ever
/// resolve to a filename whose index lies in Kanto's range — never to the
/// token carried through as a literal name.
pub proof fn lemma_kanto_candidate(l: List, opts: Seq<String>, out: Seq<char>)
    requires
        opts.len() == 1,
        opts[0]@ == "kanto"@,
        exists|k: int| 0 <= k < opts.len() && candidate_gives(l, (#[trigger] opts[k])@, out),
    ensures
        exists|i: int| 0 <= i <= 151 && i < l.spec_len() && out == (#[trigger] l.filenames[i])@,
{
    reveal_strlit("kanto");
    let c = opts[0]@;
    assert(c.len() == 5 && c[0] == 'k');
    assert(!crate::text::is_digit('k'));
    assert(crate::text::numeric_body(c) == c);
    assert(!parses_as_usize(c));
    assert(crate::text::lower_seq(c) =~= c);
    assert(region_of(c) == Some(Region::Kanto));
}

/// A request for a random entry.
pub enum RandomType {
    /// Any entry of the table.
    Any,
    /// Any entry of one region's range.
    Region(Region),
    /// One of the given candidate tokens, re-parsed after the draw. The
    /// caller never builds this variant from an empty list.
    List(Vec<String>),
}

impl RandomType {
    /// The request a batch of candidate tokens stands for: an empty batch is
    /// never made into a candidate list; it asks for any entry of the whole
    /// table instead.
    pub fn request_for(tokens: Vec<String>) -> (r: RandomType)
        ensures
            tokens@.len() == 0 ==> r is Any,
            tokens@.len() > 0 ==> r == RandomType::List(tokens),
            r matches RandomType::List(opts) ==> opts.len() > 0,
    {
        if tokens.is_empty() {
            RandomType::Any
        } else {
            RandomType::List(tokens)
        }
    }

    /// Resolve the request to a filename. A candidate list is drawn from
    /// uniformly; a candidate that names a region triggers exactly one
    /// further draw over that region, while numeric and literal candidates
    /// are evaluated directly.
    pub fn parse_random(&self, list: &List) -> (r: Result<String, Error>)
        requires
            *self matches RandomType::List(opts) ==> opts.len() > 0,
        ensures
            match *self {
                RandomType::Any => any_outcome(*list, r),
                RandomType::Region(region) => region_outcome(region, *list, r),
                RandomType::List(opts) => {
                    &&& (r is Ok ==> exists|k: int|
                        0 <= k < opts.len() && candidate_gives(
                            *list,
                            (#[trigger] opts[k])@,
                            r->Ok_0@,
                        ))
                    &&& (forall|k: int|
                        0 <= k < opts.len() ==> candidate_safe(*list, (#[trigger] opts[k])@))
                        ==> r is Ok
                },
            },
    {
        match self {
            RandomType::Any => sample_any(list),
            RandomType::Region(region) => sample_region(*region, list),
            RandomType::List(options) => {
                let k = rand_below(options.len());
                let ghost c = options@[k as int]@;
                let selection = Selection::parse(options[k].clone());
                match selection {
                    Selection::Region(region) => {
                        let r = sample_region(region, list);
                        proof {
                            assert(region_of(c) is Some && region_of(c)->Some_0 == region);
                        }
                        r
                    },
                    other => {
                        let r = other.eval(list);
                        r
                    },
                }
            },
        }
    }
}

} // verus!
