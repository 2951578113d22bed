use vstd::prelude::*;

verus! {

/// One named list of tokens from the configuration file.
pub struct PokemonList {
    pub pokemon: Vec<String>,
}

/// The named lists of the configuration file, in file order.
pub struct Config {
    pub lists: Vec<(String, PokemonList)>,
}

/// The tokens bound to a name, taking the earliest binding.
pub open spec fn lookup_lists(ls: Seq<(String, PokemonList)>, name: Seq<char>) -> Option<
    Seq<String>,
>
    decreases ls.len(),
{
    if ls.len() == 0 {
        Option::None
    } else if ls[0].0@ == name {
        Some(ls[0].1.pokemon@)
    } else {
        lookup_lists(ls.drop_first(), name)
    }
}

/// A batch of arguments with every name that is bound in the configuration
/// replaced by the tokens of its list, in order.
pub open spec fn expand_spec(c: Config, args: Seq<String>) -> Seq<String>
    decreases args.len(),
{
    if args.len() == 0 {
        Seq::<String>::empty()
    } else {
        (match lookup_lists(c.lists@, args[0]@) {
            Option::Some(l) => l,
            Option::None => seq![args[0]],
        }) + expand_spec(c, args.drop_first())
    }
}

impl Config {
    /// A configuration with no named lists.
    pub fn new() -> (r: Config)
        ensures
            r.lists@.len() == 0,
    {
        Config { lists: Vec::new() }
    }

    /// The tokens of a named list, when the name is bound.
    pub fn expand_list(&self, list_name: &str) -> (r: Option<Vec<String>>)
        ensures
            match r {
                Option::Some(v) => lookup_lists(self.lists@, list_name@) == Some(v@),
                Option::None => lookup_lists(self.lists@, list_name@) is None,
            },
    {
        let name = String::from_str(list_name);
        let n = self.lists.len();
        let mut i: usize = 0;
        proof {
            assert(self.lists@.skip(0) =~= self.lists@);
        }
        while i < n
            invariant
                n == self.lists.len(),
                i <= n,
                name@ == list_name@,
                lookup_lists(self.lists@, list_name@) == lookup_lists(
                    self.lists@.skip(i as int),
                    list_name@,
                ),
            decreases n - i,
        {
            let ghost rem = self.lists@.skip(i as int);
            proof {
                assert(rem[0] == self.lists@[i as int]);
                assert(rem.drop_first() =~= self.lists@.skip(i + 1));
            }
            if self.lists[i].0 == name {
                let src_list = &self.lists[i].1;
                let mut out: Vec<String> = Vec::new();
                let mut j: usize = 0;
                while j < src_list.pokemon.len()
                    invariant
                        j <= src_list.pokemon.len(),
                        out@ == src_list.pokemon@.take(j as int),
                    decreases src_list.pokemon.len() - j,
                {
                    out.push(src_list.pokemon[j].clone());
                    proof {
                        assert(out@ =~= src_list.pokemon@.take(j + 1));
                    }
                    j = j + 1;
                }
                proof {
                    assert(src_list.pokemon@.take(src_list.pokemon@.len() as int)
                        =~= src_list.pokemon@);
                }
                return Some(out);
            }
            i = i + 1;
        }
        proof {
            assert(self.lists@.skip(n as int) =~= Seq::<(String, PokemonList)>::empty());
        }
        None
    }
}

/// Replace every argument that names a configured list by that list's
/// tokens, keeping all order; any other argument passes through unchanged.
pub fn expand_arguments(args: &Vec<String>, config: &Config) -> (r: Vec<String>)
    ensures
        r@ == expand_spec(*config, args@),
{
    let mut out: Vec<String> = Vec::new();
    let mut i: usize = 0;
    proof {
        assert(out@ + expand_spec(*config, args@.skip(0)) =~= expand_spec(*config, args@.skip(0)));
        assert(args@.skip(0) =~= args@);
    }
    while i < args.len()
        invariant
            i <= args.len(),
            expand_spec(*config, args@) == out@ + expand_spec(*config, args@.skip(i as int)),
        decreases args.len() - i,
    {
        let ghost rem = args@.skip(i as int);
        proof {
            assert(rem[0] == args@[i as int]);
            assert(rem.drop_first() =~= args@.skip(i + 1));
        }
        let ghost before = out@;
        match config.expand_list(args[i].as_str()) {
            Option::Some(v) => {
                let mut j: usize = 0;
                while j < v.len()
                    invariant
                        j <= v.len(),
                        out@ == before + v@.take(j as int),
                    decreases v.len() - j,
                {
                    out.push(v[j].clone());
                    proof {
                        assert(out@ =~= before + v@.take(j + 1));
                    }
                    j = j + 1;
                }
                proof {
                    assert(v@.take(v@.len() as int) =~= v@);
                }
            },
            Option::None => {
                out.push(args[i].clone());
                proof {
                    assert(out@ =~= before + seq![args@[i as int]]);
                }
            },
        }
        proof {
            assert(expand_spec(*config, args@) =~= out@ + expand_spec(
                *config,
                args@.skip(i + 1),
            ));
        }
        i = i + 1;
    }
    proof {
        assert(args@.skip(args@.len() as int) =~= Seq::<String>::empty());
        assert(out@ + expand_spec(*config, args@.skip(args@.len() as int)) =~= out@);
    }
    out
}

} // verus!
