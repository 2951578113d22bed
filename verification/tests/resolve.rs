use pokeget::config::{expand_arguments, Config, PokemonList};
use pokeget::list::List;
use pokeget::pokemon::{
    effective_shiny_rate, Args, Attributes, Error, Pokemon, Region, Selection,
};
use pokeget::random::RandomType;

fn small_list() -> List {
    let csv = "Bulbasaur,bulbasaur\nMr. Mime,mr-mime\nFarfetch'd,farfetchd\n";
    List::read(csv).expect("the table is well formed")
}

fn full_list() -> List {
    let mut csv = String::new();
    for i in 0..906 {
        csv.push_str(&format!("Name{},file{}\n", i, i));
    }
    List::read(&csv).expect("the table is well formed")
}

fn plain_args() -> Args {
    Args {
        form: String::new(),
        female: false,
        shiny: false,
        mega: false,
        mega_x: false,
        mega_y: false,
        alolan: false,
        gmax: false,
        hisui: false,
        galar: false,
        noble: false,
    }
}

#[test]
fn read_assigns_indices_in_row_order() {
    let list = small_list();
    assert_eq!(list.len(), 3);
    assert_eq!(list.get_by_id(0).unwrap().as_str(), "bulbasaur");
    assert_eq!(list.get_by_id(1).unwrap().as_str(), "mr-mime");
    assert_eq!(list.get_by_id(2).unwrap().as_str(), "farfetchd");
    assert!(list.get_by_id(3).is_none());
}

#[test]
fn read_handles_crlf_and_blank_lines() {
    let list = List::read("A,a\r\n\r\nB,b").expect("well formed");
    assert_eq!(list.len(), 2);
    assert_eq!(list.get_by_id(0).unwrap().as_str(), "a");
    assert_eq!(list.get_by_id(1).unwrap().as_str(), "b");
}

#[test]
fn read_rejects_duplicate_filenames() {
    assert!(List::read("A,same\nB,same\n").is_none());
}

#[test]
fn read_rejects_malformed_rows() {
    assert!(List::read("no comma here\n").is_none());
    assert!(List::read("too,many,commas\n").is_none());
}

#[test]
fn lookups_are_mutual_inverses() {
    let list = full_list();
    for i in 0..906 {
        let f = list.get_by_id(i).unwrap().clone();
        assert_eq!(list.lookup_by_filename(&f), Some(i));
    }
    assert!(list.lookup_by_filename("not-there").is_none());
}

#[test]
fn display_name_round_trips_through_both_lookups() {
    let list = small_list();
    let idx = list.lookup_by_filename("mr-mime").unwrap();
    let f = list.get_by_id(idx).unwrap().clone();
    assert_eq!(list.format_name(&f), "Mr. Mime");
    assert_eq!(list.format_name("farfetchd"), "Farfetch'd");
}

#[test]
fn display_name_falls_back_to_title_case() {
    let list = small_list();
    assert_eq!(list.format_name("some-fake-mon"), "Some Fake Mon");
    assert_eq!(list.format_name("sirfetch'd"), "Sirfetchd");
}

#[test]
fn parse_zero_is_a_dex_id() {
    assert!(Selection::parse("0".to_string()) == Selection::DexId(0));
}

#[test]
fn parse_number_is_a_dex_id() {
    assert!(Selection::parse("25".to_string()) == Selection::DexId(25));
    assert!(Selection::parse("+7".to_string()) == Selection::DexId(7));
}

#[test]
fn parse_overflowing_number_is_a_name() {
    let huge = "99999999999999999999999999999999".to_string();
    assert!(Selection::parse(huge.clone()) == Selection::Name(huge));
}

#[test]
fn parse_region_names_ignore_case() {
    assert!(Selection::parse("kanto".to_string()) == Selection::Region(Region::Kanto));
    assert!(Selection::parse("Kanto".to_string()) == Selection::Region(Region::Kanto));
    assert!(Selection::parse("GALAR".to_string()) == Selection::Region(Region::Galar));
}

#[test]
fn parse_other_tokens_are_names() {
    assert!(
        Selection::parse("pikachu".to_string()) == Selection::Name("pikachu".to_string())
    );
}

#[test]
fn eval_zero_samples_instead_of_looking_up() {
    let list = small_list();
    for _ in 0..200 {
        let f = Selection::parse("0".to_string()).eval(&list).unwrap();
        // The result is a table filename, never the literal token.
        assert!(list.lookup_by_filename(&f).is_some());
        assert_ne!(f, "0");
    }
}

#[test]
fn eval_positive_id_is_one_based() {
    let list = small_list();
    assert_eq!(Selection::DexId(2).eval(&list).unwrap(), "mr-mime");
}

#[test]
fn eval_invalid_id_reports_the_id() {
    let list = small_list();
    assert!(Selection::DexId(99).eval(&list) == Err(Error::InvalidDexId(99)));
}

#[test]
fn eval_name_passes_through_verbatim() {
    let list = small_list();
    assert_eq!(
        Selection::Name("anything".to_string()).eval(&list).unwrap(),
        "anything"
    );
}

#[test]
fn eval_zero_on_empty_table_fails() {
    let empty = List::read("").unwrap();
    assert!(Selection::DexId(0).eval(&empty) == Err(Error::EmptyList));
}

#[test]
fn region_sample_on_short_table_fails() {
    let list = small_list();
    assert!(
        RandomType::Region(Region::Johto).parse_random(&list) == Err(Error::MissingEntry)
    );
}

#[test]
fn region_draws_stay_in_their_ranges() {
    let list = full_list();
    let regions = [
        (Region::Kanto, 0usize, 151usize),
        (Region::Johto, 152, 251),
        (Region::Hoenn, 252, 386),
        (Region::Sinnoh, 387, 493),
        (Region::Unova, 494, 649),
        (Region::Kalos, 650, 721),
        (Region::Alola, 722, 809),
        (Region::Galar, 810, 905),
    ];
    for (region, lo, hi) in regions {
        for _ in 0..1250 {
            let f = RandomType::Region(region).parse_random(&list).unwrap();
            let idx = list.lookup_by_filename(&f).unwrap();
            assert!(idx >= lo && idx <= hi);
        }
    }
}

#[test]
fn region_candidate_in_a_list_is_redrawn_over_its_range() {
    let list = full_list();
    for _ in 0..1000 {
        let request = RandomType::List(vec!["kanto".to_string()]);
        let f = request.parse_random(&list).unwrap();
        assert_ne!(f, "kanto");
        let idx = list.lookup_by_filename(&f).unwrap();
        assert!(idx <= 151);
    }
}

#[test]
fn numeric_and_literal_candidates_are_not_redrawn() {
    let list = full_list();
    let request = RandomType::List(vec!["3".to_string()]);
    assert_eq!(request.parse_random(&list).unwrap(), "file2");
    let request = RandomType::List(vec!["snorlax".to_string()]);
    assert_eq!(request.parse_random(&list).unwrap(), "snorlax");
}

#[test]
fn empty_candidate_batch_becomes_a_whole_table_draw() {
    let request = RandomType::request_for(Vec::new());
    assert!(matches!(request, RandomType::Any));
    let request = RandomType::request_for(vec!["kanto".to_string()]);
    assert!(matches!(request, RandomType::List(_)));
}

#[test]
fn path_for_a_plain_name() {
    let a = Attributes {
        form: String::new(),
        female: false,
        shiny: false,
    };
    assert_eq!(a.path("pikachu"), "regular/pikachu.png");
}

#[test]
fn path_appends_the_form_suffix() {
    let a = Attributes {
        form: "mega-x".to_string(),
        female: false,
        shiny: false,
    };
    assert_eq!(a.path("charizard"), "regular/charizard-mega-x.png");
}

#[test]
fn path_normalizes_spaces_and_punctuation() {
    let a = Attributes {
        form: String::new(),
        female: false,
        shiny: false,
    };
    assert_eq!(a.path("mr mime"), "regular/mr-mime.png");
    assert_eq!(a.path("Mr. Mime"), "regular/mr-mime.png");
    assert_eq!(a.path("farfetch'd"), "regular/farfetchd.png");
    assert_eq!(a.path("type: null"), "regular/type-null.png");
}

#[test]
fn path_places_shiny_and_female_prefixes() {
    let a = Attributes {
        form: String::new(),
        female: true,
        shiny: true,
    };
    assert_eq!(a.path("eevee"), "shiny/female/eevee.png");
}

#[test]
fn attributes_pick_the_first_fixed_form() {
    let mut args = plain_args();
    args.mega_y = true;
    args.noble = true;
    let a = Attributes::new(&args, 8192);
    assert_eq!(a.form, "mega-y-noble");
    assert!(!a.female);
}

#[test]
fn attributes_free_form_and_certain_shiny() {
    let mut args = plain_args();
    args.form = "gmax".to_string();
    let a = Attributes::new(&args, 1);
    assert_eq!(a.form, "gmax");
    // A rate of one makes the probabilistic shiny certain.
    assert!(a.shiny);
}

#[test]
fn shiny_rate_override_rules() {
    assert_eq!(effective_shiny_rate(None), (8192, false));
    assert_eq!(effective_shiny_rate(Some(&"12".to_string())), (12, false));
    assert_eq!(effective_shiny_rate(Some(&"0".to_string())), (1, false));
    assert_eq!(effective_shiny_rate(Some(&"abc".to_string())), (8192, true));
    assert_eq!(
        effective_shiny_rate(Some(&"99999999999".to_string())),
        (8192, true)
    );
}

#[test]
fn resolve_builds_path_and_display_name() {
    let list = small_list();
    let a = Attributes {
        form: String::new(),
        female: false,
        shiny: false,
    };
    let r = Pokemon::resolve("2".to_string(), &list, &a).unwrap();
    assert_eq!(r.filename, "mr-mime");
    assert_eq!(r.path, "regular/mr-mime.png");
    assert_eq!(r.name, "Mr. Mime");
}

#[test]
fn resolve_many_keeps_order_and_aborts_on_failure() {
    let list = small_list();
    let a = Attributes {
        form: String::new(),
        female: false,
        shiny: false,
    };
    let args = vec!["1".to_string(), "3".to_string()];
    let rs = Pokemon::resolve_many(&args, &list, &a).unwrap();
    assert_eq!(rs.len(), 2);
    assert_eq!(rs[0].filename, "bulbasaur");
    assert_eq!(rs[1].filename, "farfetchd");

    let args = vec!["1".to_string(), "99".to_string()];
    let failed = Pokemon::resolve_many(&args, &list, &a);
    assert!(matches!(failed, Err(Error::InvalidDexId(99))));
}

#[test]
fn expand_arguments_substitutes_named_lists() {
    let config = Config {
        lists: vec![(
            "starters".to_string(),
            PokemonList {
                pokemon: vec!["bulbasaur".to_string(), "charmander".to_string()],
            },
        )],
    };
    assert_eq!(
        config.expand_list("starters").unwrap(),
        vec!["bulbasaur".to_string(), "charmander".to_string()]
    );
    assert!(config.expand_list("legendaries").is_none());

    let args = vec!["pikachu".to_string(), "starters".to_string()];
    let expanded = expand_arguments(&args, &config);
    assert_eq!(
        expanded,
        vec![
            "pikachu".to_string(),
            "bulbasaur".to_string(),
            "charmander".to_string()
        ]
    );
}
