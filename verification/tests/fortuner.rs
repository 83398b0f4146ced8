use cliutils::fortuner::{
    filter_fortunes, pick_fortune, read_fortunes, run, Config, Fortune, Source,
};
use cliutils::input::Input;

const JOKES: &str = "Q. What do you call a head of lettuce in a shirt and tie?\n\
A. Collared greens.\n\
%\n\
Q: Why did the gardener quit his job?\n\
A: His celery wasn't high enough.\n\
%\n\
Q. Why did the honeydew couple get married in a church?\n\
A. Their parents told them they cantaloupe.\n\
%\n\
Q: What's orange and sounds like a parrot?\n\
A: A carrot.\n\
%\n\
Q: What's Forrest Gump's Facebook password?\n\
A: 1forest1\n\
%\n\
Q: What do you call a deer wearing an eye patch?\n\
A: A bad idea (bad-eye deer).\n\
%\n";

const QUOTES: &str = "You cannot achieve the impossible without attempting the absurd.\n\
%\n\
Assumption is the mother of all screw-ups.\n\
%\n\
Neckties strangle clear thinking.\n\
%\n\
%\n\
Be yourself; everyone else is already taken.\r\n\
%\n\
Two things are infinite.\n\
-- attributed\n\
%\n";

fn source(path: &str, text: &str) -> Source {
    Source {
        path: path.to_string(),
        name: path.rsplit('/').next().unwrap().to_string(),
        input: Input::Content(text.as_bytes().to_vec()),
    }
}

fn fortune(text: &str) -> Fortune {
    Fortune { source: "fortunes".to_string(), text: text.to_string() }
}

fn config(pattern: Option<&str>, seed: Option<u64>, insensitive: bool) -> Config {
    Config {
        sources: vec!["./tests/inputs".to_string()],
        pattern: pattern.map(|text| text.to_string()),
        seed,
        insensitive,
    }
}

#[test]
fn test_read_fortunes() {
    // Parses all the fortunes without a filter
    let res = read_fortunes(&vec![source("./tests/inputs/jokes", JOKES)]);
    assert!(res.is_ok());

    if let Ok(fortunes) = res {
        println!("{:?}", fortunes);
        // Correct number and sorting
        assert_eq!(fortunes.len(), 6);
        assert_eq!(fortunes.first().unwrap().source, "jokes");
        assert_eq!(
            fortunes.first().unwrap().text,
            "Q. What do you call a head of lettuce in a shirt and tie?\n\
            A. Collared greens."
        );
        assert_eq!(
            fortunes.last().unwrap().text,
            "Q: What do you call a deer wearing an eye patch?\n\
            A: A bad idea (bad-eye deer)."
        );
    }

    // Filters for matching text
    let res = read_fortunes(&vec![
        source("./tests/inputs/jokes", JOKES),
        source("./tests/inputs/quotes", QUOTES),
    ]);
    assert!(res.is_ok());
    assert_eq!(res.unwrap().len(), 11);
}

#[test]
fn test_pick_fortune() {
    // Create a slice of fortunes
    let fortunes = &[
        fortune(
            "You cannot achieve the impossible without \
                    attempting the absurd.",
        ),
        fortune("Assumption is the mother of all screw-ups."),
        fortune("Neckties strangle clear thinking."),
    ];

    // Pick a fortune with a seed
    assert_eq!(
        pick_fortune(fortunes, Some(1)).unwrap(),
        "Neckties strangle clear thinking.".to_string()
    );
}

#[test]
fn pick_fortune_of_none_and_of_one() {
    assert_eq!(pick_fortune(&[], Some(1)), None);
    assert_eq!(pick_fortune(&[], None), None);
    assert_eq!(pick_fortune(&[fortune("only")], None), Some("only".to_string()));
    assert_eq!(pick_fortune(&[fortune("only")], Some(7)), Some("only".to_string()));
}

#[test]
fn pick_fortune_with_a_seed_is_repeatable_and_without_one_picks_a_fortune() {
    let fortunes: Vec<Fortune> = (0..50).map(|i| fortune(&format!("fortune {}", i))).collect();
    let first = pick_fortune(&fortunes, Some(42));
    for _ in 0..10 {
        assert_eq!(pick_fortune(&fortunes, Some(42)), first);
    }
    let free = pick_fortune(&fortunes, None).unwrap();
    assert!(fortunes.iter().any(|f| f.text == free));
}

#[test]
fn fortunes_end_at_percent_lines_and_carry_over_between_files() {
    let fortunes = read_fortunes(&vec![
        source("a/first", "%\n%\none\n%\nleft\nover"),
        source("b/second", "here\r\n%\n % \nlast\n"),
    ])
    .unwrap();
    let seen: Vec<(&str, &str)> =
        fortunes.iter().map(|f| (f.source.as_str(), f.text.as_str())).collect();
    assert_eq!(seen, vec![("first", "one"), ("second", "left\nover\nhere")]);
}

#[test]
fn read_fortunes_names_the_file_that_cannot_be_opened() {
    let missing = Source {
        path: "/path/does/not/exist".to_string(),
        name: "exist".to_string(),
        input: Input::Unreadable("No such file or directory (os error 2)".to_string()),
    };
    let res = read_fortunes(&vec![source("jokes", JOKES), missing]);
    assert_eq!(
        res.unwrap_err(),
        "/path/does/not/exist: No such file or directory (os error 2)"
    );
}

#[test]
fn filter_keeps_the_fortunes_that_match() {
    let fortunes = read_fortunes(&vec![source("quotes", QUOTES)]).unwrap();
    let kept = filter_fortunes(&fortunes, "the", false);
    assert_eq!(kept.len(), 2);
    assert_eq!(kept[1].text, "Assumption is the mother of all screw-ups.");
    assert_eq!(filter_fortunes(&fortunes, "THE", false).len(), 0);
    assert_eq!(filter_fortunes(&fortunes, "THE", true).len(), 2);
    assert_eq!(filter_fortunes(&fortunes, "(", false).len(), 0);
    assert_eq!(filter_fortunes(&fortunes, "", false).len(), 5);
}

#[test]
fn run_picks_among_the_matching_fortunes() {
    let sources = vec![source("jokes", JOKES), source("quotes", QUOTES)];
    let out = run(&config(Some("neckties"), Some(3), true), &sources);
    assert_eq!(out, Ok("Neckties strangle clear thinking.\n".to_string()));
    let out = run(&config(Some("neckties"), None, false), &sources);
    assert_eq!(out, Err("No fortunes found matching the pattern".to_string()));
    let out = run(&config(Some("*neckties"), None, false), &sources);
    assert_eq!(out, Err("Invalid --pattern \"*neckties\"".to_string()));
    let first = run(&config(None, Some(10), false), &sources).unwrap();
    assert_eq!(run(&config(None, Some(10), false), &sources), Ok(first.clone()));
    assert!(first.ends_with("\n"));
    let all = read_fortunes(&sources).unwrap();
    assert!(all.iter().any(|f| format!("{}\n", f.text) == first));
}
