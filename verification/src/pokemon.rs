use vstd::prelude::*;

use crate::list::{disp_prep, title_case_of, List};
use crate::random::{
    any_outcome, candidate_gives, candidate_safe, rate_is_shiny, region_outcome, sample_any,
    sample_region, RandomType,
};
use crate::sprites::Image;
use crate::text::{
    lower_seq, lowercase, norm_seq, parse_usize, parses_as_usize, str_chars, trim_seq,
    usize_value,
};
use crate::text::{chars_to_string, normalize_chars, trim_chars};

verus! {

/// The default one-in-N chance of a probabilistic shiny sprite.
pub const DEFAULT_SHINY_RATE: u32 = 8192;

// ---------------------------------------------------------------------------
// Regions.
// ---------------------------------------------------------------------------

/// One of the eight fixed groupings of consecutive internal indices.
#[derive(Debug, Clone, Copy, Eq, PartialEq, Structural)]
pub enum Region {
    Kanto,
    Johto,
    Hoenn,
    Sinnoh,
    Unova,
    Kalos,
    Alola,
    Galar,
}

/// First internal index of a region's range.
pub open spec fn region_lo(r: Region) -> nat {
    match r {
        Region::Kanto => 0,
        Region::Johto => 152,
        Region::Hoenn => 252,
        Region::Sinnoh => 387,
        Region::Unova => 494,
        Region::Kalos => 650,
        Region::Alola => 722,
        Region::Galar => 810,
    }
}

/// Last internal index of a region's range, inclusive.
pub open spec fn region_hi(r: Region) -> nat {
    match r {
        Region::Kanto => 151,
        Region::Johto => 251,
        Region::Hoenn => 386,
        Region::Sinnoh => 493,
        Region::Unova => 649,
        Region::Kalos => 721,
        Region::Alola => 809,
        Region::Galar => 905,
    }
}

/// Which region a token names, compared without regard to case.
pub open spec fn region_of(s: Seq<char>) -> Option<Region> {
    let l = lower_seq(s);
    if l == "kanto"@ {
        Some(Region::Kanto)
    } else if l == "johto"@ {
        Some(Region::Johto)
    } else if l == "hoenn"@ {
        Some(Region::Hoenn)
    } else if l == "sinnoh"@ {
        Some(Region::Sinnoh)
    } else if l == "unova"@ {
        Some(Region::Unova)
    } else if l == "kalos"@ {
        Some(Region::Kalos)
    } else if l == "alola"@ {
        Some(Region::Alola)
    } else if l == "galar"@ {
        Some(Region::Galar)
    } else {
        Option::None
    }
}

/// Each region's range is ascending, and the eight ranges are pairwise
/// disjoint.
pub proof fn lemma_region_ranges_disjoint(a: Region, b: Region)
    requires
        a != b,
    ensures
        region_lo(a) <= region_hi(a),
        region_hi(a) < region_lo(b) || region_hi(b) < region_lo(a),
{
}

impl Region {
    /// Parse a region name, accepting any letter case.
    pub fn from_str(s: &str) -> (r: Option<Region>)
        ensures
            r == region_of(s@),
    {
        let low = lowercase(s);
        if low == String::from_str("kanto") {
            Some(Region::Kanto)
        } else if low == String::from_str("johto") {
            Some(Region::Johto)
        } else if low == String::from_str("hoenn") {
            Some(Region::Hoenn)
        } else if low == String::from_str("sinnoh") {
            Some(Region::Sinnoh)
        } else if low == String::from_str("unova") {
            Some(Region::Unova)
        } else if low == String::from_str("kalos") {
            Some(Region::Kalos)
        } else if low == String::from_str("alola") {
            Some(Region::Alola)
        } else if low == String::from_str("galar") {
            Some(Region::Galar)
        } else {
            None
        }
    }

    /// The region's inclusive index range.
    pub fn bounds(&self) -> (r: (usize, usize))
        ensures
            r.0 == region_lo(*self),
            r.1 == region_hi(*self),
    {
        match self {
            Region::Kanto => (0, 151),
            Region::Johto => (152, 251),
            Region::Hoenn => (252, 386),
            Region::Sinnoh => (387, 493),
            Region::Unova => (494, 649),
            Region::Kalos => (650, 721),
            Region::Alola => (722, 809),
            Region::Galar => (810, 905),
        }
    }
}

// ---------------------------------------------------------------------------
// Errors.
// ---------------------------------------------------------------------------

/// What can go wrong while a token is resolved to a filename.
#[derive(Debug, Eq, PartialEq, Structural)]
pub enum Error {
    /// A numeric identifier beyond the table: a user error.
    InvalidDexId(usize),
    /// A random draw over an empty table: a defect in the loaded table.
    EmptyList,
    /// A sampled index beyond the table: a defect in the loaded table.
    MissingEntry,
}

// ---------------------------------------------------------------------------
// Selections.
// ---------------------------------------------------------------------------

/// A classified input token.
#[derive(Eq, PartialEq)]
pub enum Selection {
    /// A numeric identifier; zero asks for a random entry.
    DexId(usize),
    /// A name carried through verbatim.
    Name(String),
    /// A region name.
    Region(Region),
}

impl Selection {
    /// Classify a raw token: a number, else a region name, else a literal
    /// name.
    pub fn parse(arg: String) -> (r: Selection)
        ensures
            parses_as_usize(arg@) ==> r == Selection::DexId(usize_value(arg@) as usize),
            !parses_as_usize(arg@) && region_of(arg@) is Some ==> r == Selection::Region(
                region_of(arg@)->Some_0,
            ),
            !parses_as_usize(arg@) && region_of(arg@) is None ==> r == Selection::Name(arg),
    {
        let cs = str_chars(arg.as_str());
        match parse_usize(&cs) {
            Option::Some(n) => Selection::DexId(n),
            Option::None => {
                match Region::from_str(arg.as_str()) {
                    Option::Some(region) => Selection::Region(region),
                    Option::None => Selection::Name(arg),
                }
            },
        }
    }

    /// Evaluate the selection to a filename. A zero identifier samples the
    /// whole table, a positive one looks the entry up (the user-facing value
    /// is one above the internal index), a name passes through verbatim, and
    /// a region samples its range.
    pub fn eval(self, list: &List) -> (r: Result<String, Error>)
        ensures
            match self {
                Selection::DexId(n) => {
                    if n == 0 {
                        any_outcome(*list, r)
                    } else {
                        &&& (r is Ok <==> n <= list.spec_len())
                        &&& (r is Ok ==> r->Ok_0@ == list.filenames[n - 1]@)
                        &&& (r is Err ==> r->Err_0 == Error::InvalidDexId(n))
                    }
                },
                Selection::Name(s) => r == Ok::<String, Error>(s),
                Selection::Region(region) => region_outcome(region, *list, r),
            },
    {
        match self {
            Selection::DexId(n) => {
                if n == 0 {
                    sample_any(list)
                } else {
                    match list.get_by_id(n - 1) {
                        Option::Some(f) => Ok(f.clone()),
                        Option::None => Err(Error::InvalidDexId(n)),
                    }
                }
            },
            Selection::Name(name) => Ok(name),
            Selection::Region(region) => sample_region(region, list),
        }
    }
}

// ---------------------------------------------------------------------------
// Cosmetic attributes.
// ---------------------------------------------------------------------------

/// The cosmetic switches of one invocation, as handed in from the command
/// line. At most one of the form switches is expected to be set; the earlier
/// field wins when several are.
pub struct Args {
    /// A free-form form suffix, used when no fixed form switch is set.
    pub form: String,
    pub female: bool,
    pub shiny: bool,
    pub mega: bool,
    pub mega_x: bool,
    pub mega_y: bool,
    pub alolan: bool,
    pub gmax: bool,
    pub hisui: bool,
    pub galar: bool,
    /// Appends `-noble` to whatever form was otherwise selected.
    pub noble: bool,
}

/// The form string a set of switches selects, before the noble suffix.
pub open spec fn base_form(a: Args) -> Seq<char> {
    if a.mega {
        seq!['m', 'e', 'g', 'a']
    } else if a.mega_x {
        seq!['m', 'e', 'g', 'a', '-', 'x']
    } else if a.mega_y {
        seq!['m', 'e', 'g', 'a', '-', 'y']
    } else if a.alolan {
        seq!['a', 'l', 'o', 'l', 'a']
    } else if a.gmax {
        seq!['g', 'm', 'a', 'x']
    } else if a.hisui {
        seq!['h', 'i', 's', 'u', 'i']
    } else if a.galar {
        seq!['g', 'a', 'l', 'a', 'r']
    } else {
        a.form@
    }
}

/// The full form string, noble suffix included.
pub open spec fn full_form(a: Args) -> Seq<char> {
    if a.noble {
        base_form(a) + seq!['-', 'n', 'o', 'b', 'l', 'e']
    } else {
        base_form(a)
    }
}

/// Whether a token is a well-formed rate override: a non-negative integer
/// that fits in 32 bits.
pub open spec fn parses_as_rate(s: Seq<char>) -> bool {
    parses_as_usize(s) && usize_value(s) <= u32::MAX
}

/// The shiny rate an override selects: the written value, except that zero
/// is lifted to one.
pub open spec fn override_rate(s: Seq<char>) -> nat {
    if usize_value(s) == 0 {
        1
    } else {
        usize_value(s)
    }
}

/// The shiny-probability denominator in force, and whether a warning about a
/// malformed override is due: an absent override selects the default
/// silently, a well-formed one selects its value (zero lifted to one), and a
/// malformed one selects the default with a warning.
pub fn effective_shiny_rate(raw: Option<&String>) -> (r: (u32, bool))
    ensures
        r.0 >= 1,
        match raw {
            Option::None => r == (DEFAULT_SHINY_RATE, false),
            Option::Some(s) => {
                if parses_as_rate(s@) {
                    r.0 == override_rate(s@) && r.1 == false
                } else {
                    r == (DEFAULT_SHINY_RATE, true)
                }
            },
        },
{
    match raw {
        Option::None => (DEFAULT_SHINY_RATE, false),
        Option::Some(s) => {
            let cs = str_chars(s.as_str());
            match parse_usize(&cs) {
                Option::Some(v) => {
                    if v <= u32::MAX as usize {
                        if v == 0 {
                            (1, false)
                        } else {
                            (v as u32, false)
                        }
                    } else {
                        (DEFAULT_SHINY_RATE, true)
                    }
                },
                Option::None => (DEFAULT_SHINY_RATE, true),
            }
        },
    }
}

/// The cosmetic modifiers shared by every sprite of one invocation.
#[derive(Clone)]
pub struct Attributes {
    /// The form suffix; empty when no form was chosen.
    pub form: String,
    pub female: bool,
    pub shiny: bool,
}

impl Attributes {
    /// Build the attributes from the command-line switches and the shiny
    /// rate in force. The shiny flag holds when asked for outright, and may
    /// also be rolled at a one-in-`shiny_rate` chance.
    pub fn new(args: &Args, shiny_rate: u32) -> (r: Attributes)
        requires
            shiny_rate >= 1,
        ensures
            r.form@ == full_form(*args),
            r.female == args.female,
            args.shiny ==> r.shiny,
            !args.shiny && shiny_rate == 1 ==> r.shiny,
    {
        proof {
            reveal_strlit("mega");
            reveal_strlit("mega-x");
            reveal_strlit("mega-y");
            reveal_strlit("alola");
            reveal_strlit("gmax");
            reveal_strlit("hisui");
            reveal_strlit("galar");
            reveal_strlit("-noble");
        }
        let mut form: String = if args.mega {
            String::from_str("mega")
        } else if args.mega_x {
            String::from_str("mega-x")
        } else if args.mega_y {
            String::from_str("mega-y")
        } else if args.alolan {
            String::from_str("alola")
        } else if args.gmax {
            String::from_str("gmax")
        } else if args.hisui {
            String::from_str("hisui")
        } else if args.galar {
            String::from_str("galar")
        } else {
            args.form.clone()
        };
        proof {
            assert(form@ =~= base_form(*args));
        }
        if args.noble {
            form.append("-noble");
        }
        proof {
            assert(form@ =~= full_form(*args));
        }
        let shiny = args.shiny || rate_is_shiny(shiny_rate);
        Attributes { form, female: args.female, shiny }
    }

    /// The sprite path a resolved name maps to under these attributes.
    pub open spec fn spec_path(self, name: Seq<char>) -> Seq<char> {
        (if self.shiny {
            seq!['s', 'h', 'i', 'n', 'y']
        } else {
            seq!['r', 'e', 'g', 'u', 'l', 'a', 'r']
        }) + seq!['/'] + (if self.female {
            seq!['f', 'e', 'm', 'a', 'l', 'e', '/']
        } else {
            Seq::<char>::empty()
        }) + trim_seq(
            norm_seq(
                if self.form@.len() > 0 {
                    name + seq!['-'] + self.form@
                } else {
                    name
                },
            ),
        ) + seq!['.', 'p', 'n', 'g']
    }

    /// Build the sprite path for a resolved name: append the form suffix if
    /// one was chosen, normalize the segment, and place it under the shiny
    /// or regular directory, with the female subdirectory when asked for.
    pub fn path(&self, name: &str) -> (r: String)
        ensures
            r@ == self.spec_path(name@),
    {
        let mut fname = str_chars(name);
        if !self.form.as_str().is_empty() {
            fname.push('-');
            let fcs = str_chars(self.form.as_str());
            let mut j: usize = 0;
            while j < fcs.len()
                invariant
                    j <= fcs.len(),
                    fcs@ == self.form@,
                    fname@ == name@ + seq!['-'] + self.form@.subrange(0, j as int),
                decreases fcs.len() - j,
            {
                fname.push(fcs[j]);
                proof {
                    assert(fname@ =~= name@ + seq!['-'] + self.form@.subrange(0, j + 1));
                }
                j = j + 1;
            }
            proof {
                assert(fname@ =~= name@ + seq!['-'] + self.form@);
            }
        }
        let norm = normalize_chars(&fname);
        let trimmed = trim_chars(&norm);
        let seg = chars_to_string(&trimmed);
        let mut out: String = if self.shiny {
            String::from_str("shiny")
        } else {
            String::from_str("regular")
        };
        out.append("/");
        if self.female {
            out.append("female/");
        }
        out.append(seg.as_str());
        out.append(".png");
        proof {
            reveal_strlit("shiny");
            reveal_strlit("regular");
            reveal_strlit("/");
            reveal_strlit("female/");
            reveal_strlit(".png");
            assert(fname@ =~= (if self.form@.len() > 0 {
                name@ + seq!['-'] + self.form@
            } else {
                name@
            }));
            assert(out@ =~= self.spec_path(name@));
        }
        out
    }
}

// ---------------------------------------------------------------------------
// Resolution.
// ---------------------------------------------------------------------------

/// The outcome of resolving one token, before the sprite itself is fetched:
/// the candidate sprite path, the resolved filename, and its display name.
pub struct Resolution {
    /// The candidate sprite path, such as `regular/pikachu.png`.
    pub path: String,
    /// The resolved filename the path was built from.
    pub filename: String,
    /// The display name for the resolved filename.
    pub name: String,
}

/// The path and display name of a resolution fit its resolved filename.
pub open spec fn resolved_entry(l: List, a: Attributes, r: Resolution) -> bool {
    let f = r.filename@;
    &&& r.path@ == a.spec_path(f)
    &&& (l.has_filename(f) ==> r.name@ == l.names[l.spec_index_of(f)]@)
    &&& (!l.has_filename(f) ==> r.name@ == title_case_of(disp_prep(f)))
}

/// The whole resolution fits the token it came from.
pub open spec fn resolution_matches(l: List, a: Attributes, tok: Seq<char>, r: Resolution) -> bool {
    &&& candidate_gives(l, tok, r.filename@)
    &&& resolved_entry(l, a, r)
}

/// A sprite ready for composition: its path, display name, decoded pixels,
/// and the invocation's attributes.
pub struct Pokemon {
    /// The sprite path the pixels were fetched from.
    pub path: String,
    /// The display name.
    pub name: String,
    /// The decoded, trimmed sprite.
    pub sprite: Image,
    /// The invocation's cosmetic modifiers.
    pub attributes: Attributes,
}

impl Pokemon {
    /// Resolve one raw token: classify it, evaluate it to a filename
    /// (drawing randomly where it asks for that), and build the sprite path
    /// and display name. Fetching and decoding the sprite bytes is the
    /// caller's affair.
    pub fn resolve(arg: String, list: &List, attributes: &Attributes) -> (r: Result<
        Resolution,
        Error,
    >)
        requires
            list.wf(),
        ensures
            r is Ok ==> resolution_matches(*list, *attributes, arg@, r->Ok_0),
            candidate_safe(*list, arg@) ==> r is Ok,
            r is Err ==> match r->Err_0 {
                Error::InvalidDexId(n) => parses_as_usize(arg@) && usize_value(arg@) == n && n
                    > list.spec_len(),
                Error::EmptyList => parses_as_usize(arg@) && usize_value(arg@) == 0
                    && list.spec_len() == 0,
                Error::MissingEntry => !parses_as_usize(arg@) && region_of(arg@) is Some
                    && list.spec_len() <= region_hi(region_of(arg@)->Some_0),
            },
    {
        let selection = Selection::parse(arg);
        let name = match selection.eval(list) {
            Result::Ok(n) => n,
            Result::Err(e) => {
                return Err(e);
            },
        };
        let path = attributes.path(name.as_str());
        let display = list.format_name(name.as_str());
        Ok(Resolution { path, filename: name, name: display })
    }

    /// Resolve a random request to a concrete sprite path and display name.
    pub fn resolve_random(random_type: &RandomType, list: &List, attributes: &Attributes) -> (r:
        Result<Resolution, Error>)
        requires
            list.wf(),
            *random_type matches RandomType::List(opts) ==> opts.len() > 0,
        ensures
            r is Ok ==> resolved_entry(*list, *attributes, r->Ok_0),
            r is Ok ==> request_gives(*list, *random_type, r->Ok_0.filename@),
            match *random_type {
                RandomType::Any => list.spec_len() > 0 ==> r is Ok,
                RandomType::Region(region) => list.spec_len() > region_hi(region) ==> r is Ok,
                RandomType::List(opts) => (forall|k: int|
                    0 <= k < opts.len() ==> candidate_safe(*list, (#[trigger] opts[k])@)) ==> r
                    is Ok,
            },
    {
        let name = match random_type.parse_random(list) {
            Result::Ok(n) => n,
            Result::Err(e) => {
                return Err(e);
            },
        };
        let path = attributes.path(name.as_str());
        let display = list.format_name(name.as_str());
        Ok(Resolution { path, filename: name, name: display })
    }

    /// Resolve an ordered batch of tokens, keeping their order; the first
    /// failure aborts the whole batch.
    pub fn resolve_many(args: &Vec<String>, list: &List, attributes: &Attributes) -> (r: Result<
        Vec<Resolution>,
        Error,
    >)
        requires
            list.wf(),
        ensures
            r is Ok ==> {
                &&& r->Ok_0.len() == args.len()
                &&& forall|k: int|
                    0 <= k < args.len() ==> resolution_matches(
                        *list,
                        *attributes,
                        (#[trigger] args[k])@,
                        r->Ok_0[k],
                    )
            },
            (forall|k: int| 0 <= k < args.len() ==> candidate_safe(*list, (#[trigger] args[k])@))
                ==> r is Ok,
    {
        let mut out: Vec<Resolution> = Vec::new();
        let mut i: usize = 0;
        while i < args.len()
            invariant
                list.wf(),
                i <= args.len(),
                out.len() == i,
                forall|k: int|
                    0 <= k < i ==> resolution_matches(
                        *list,
                        *attributes,
                        (#[trigger] args@[k])@,
                        out[k],
                    ),
            decreases args.len() - i,
        {
            match Self::resolve(args[i].clone(), list, attributes) {
                Result::Ok(res) => {
                    out.push(res);
                },
                Result::Err(e) => {
                    proof {
                        assert(!candidate_safe(*list, args@[i as int]@));
                    }
                    return Err(e);
                },
            }
            i = i + 1;
        }
        Ok(out)
    }
}

/// What a random request can resolve to.
pub open spec fn request_gives(l: List, rt: RandomType, f: Seq<char>) -> bool {
    match rt {
        RandomType::Any => exists|i: int|
            0 <= i < l.spec_len() && f == (#[trigger] l.filenames[i])@,
        RandomType::Region(region) => exists|i: int|
            region_lo(region) <= i <= region_hi(region) && i < l.spec_len() && f == (
            #[trigger] l.filenames[i])@,
        RandomType::List(opts) => exists|k: int|
            0 <= k < opts.len() && candidate_gives(l, (#[trigger] opts[k])@, f),
    }
}

} // verus!
