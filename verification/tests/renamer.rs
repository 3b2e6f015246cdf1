use renamer::lines::split_into_lines;
use renamer::numeral::decimal_string;
use renamer::order::{sort_names, str_le};
use renamer::plan::{plan_with_index, plan_with_list, RunError};
use renamer::template::{render, validate_template, Placeholder};
use renamer::{run, special_command, Config, ConfigError, SpecialCommand};

fn s(x: &str) -> String {
    x.to_string()
}

#[test]
fn validate_id_template() {
    assert_eq!(validate_template("file_{id}.txt"), Some(Placeholder::Id));
    assert_eq!(validate_template("{id}"), Some(Placeholder::Id));
    assert_eq!(validate_template("x{id}"), Some(Placeholder::Id));
    assert_eq!(validate_template("{id}.png"), Some(Placeholder::Id));
}

#[test]
fn validate_substitution_template() {
    assert_eq!(
        validate_template("owner_{s}.dat"),
        Some(Placeholder::Substitution)
    );
    assert_eq!(validate_template("{s}"), Some(Placeholder::Substitution));
}

#[test]
fn validate_rejects_unknown_placeholder() {
    assert_eq!(validate_template("foo{bar}.txt"), None);
    assert_eq!(validate_template("{idx}"), None);
    assert_eq!(validate_template("{ id}"), None);
}

#[test]
fn validate_rejects_bad_shapes() {
    assert_eq!(validate_template(""), None);
    assert_eq!(validate_template("noplaceholder"), None);
    assert_eq!(validate_template("a b{id}"), None);
    assert_eq!(validate_template("a{id} b"), None);
    assert_eq!(validate_template("{id}{s}"), None);
    assert_eq!(validate_template("a{id}b{id}c"), None);
    assert_eq!(validate_template("a}b{id}"), None);
    assert_eq!(validate_template("{id"), None);
    assert_eq!(validate_template("id}"), None);
    assert_eq!(validate_template("a{id}b}c"), None);
}

#[test]
fn render_replaces_the_placeholder() {
    assert_eq!(
        render("file_{id}.txt", Placeholder::Id, "7"),
        s("file_7.txt")
    );
    assert_eq!(render("{id}", Placeholder::Id, "12"), s("12"));
    assert_eq!(
        render("owner_{s}.dat", Placeholder::Substitution, "alice"),
        s("owner_alice.dat")
    );
    assert_eq!(render("{s}", Placeholder::Substitution, "bob"), s("bob"));
}

#[test]
fn decimal_rendering() {
    assert_eq!(decimal_string(0), s("0"));
    assert_eq!(decimal_string(1), s("1"));
    assert_eq!(decimal_string(9), s("9"));
    assert_eq!(decimal_string(10), s("10"));
    assert_eq!(decimal_string(42), s("42"));
    assert_eq!(decimal_string(1000), s("1000"));
    assert_eq!(
        decimal_string(u64::MAX),
        s("18446744073709551615")
    );
}

#[test]
fn string_order_is_codepoint_order() {
    assert!(str_le("a", "b"));
    assert!(!str_le("b", "a"));
    assert!(str_le("a", "ab"));
    assert!(!str_le("ab", "a"));
    assert!(str_le("", "a"));
    assert!(str_le("abc", "abc"));
    assert!(str_le("B", "a"));
    assert!(!str_le("a", "B"));
}

#[test]
fn sorting_is_lexicographic() {
    let sorted = sort_names(vec![s("b.txt"), s("a.txt"), s("c.txt")]);
    assert_eq!(sorted, vec![s("a.txt"), s("b.txt"), s("c.txt")]);
}

#[test]
fn sorting_keeps_duplicates() {
    let sorted = sort_names(vec![s("b"), s("a"), s("b"), s("a")]);
    assert_eq!(sorted, vec![s("a"), s("a"), s("b"), s("b")]);
}

#[test]
fn sorting_twice_gives_the_same_order() {
    let names = vec![s("z"), s("x"), s("y"), s("x")];
    let once = sort_names(names.clone());
    let twice = sort_names(once.clone());
    assert_eq!(once, twice);
    // and a second listing of the same entries sorts identically
    let again = sort_names(names);
    assert_eq!(once, again);
}

#[test]
fn lines_are_newline_delimited() {
    assert_eq!(split_into_lines("alice\nbob"), vec![s("alice"), s("bob")]);
    assert_eq!(split_into_lines(""), Vec::<String>::new());
    assert_eq!(split_into_lines("one"), vec![s("one")]);
}

#[test]
fn trailing_newline_adds_no_record() {
    assert_eq!(split_into_lines("alice\nbob\n"), vec![s("alice"), s("bob")]);
    assert_eq!(split_into_lines("\n"), vec![s("")]);
}

#[test]
fn carriage_return_belongs_to_the_terminator() {
    assert_eq!(split_into_lines("a\r\nb"), vec![s("a"), s("b")]);
    assert_eq!(split_into_lines("a\r"), vec![s("a\r")]);
}

#[test]
fn index_plan_numbers_sorted_entries() {
    // directory contains b.txt, a.txt; template file_{id}.txt
    let plan = plan_with_index("file_{id}.txt", vec![s("b.txt"), s("a.txt")]);
    assert_eq!(plan.len(), 2);
    assert_eq!(plan[0].from, s("a.txt"));
    assert_eq!(plan[0].to, s("file_1.txt"));
    assert_eq!(plan[1].from, s("b.txt"));
    assert_eq!(plan[1].to, s("file_2.txt"));
}

#[test]
fn index_plan_targets_never_collide() {
    let plan = plan_with_index("n{id}", vec![s("d"), s("c"), s("b"), s("a")]);
    for i in 0..plan.len() {
        for j in 0..plan.len() {
            if i != j {
                assert_ne!(plan[i].to, plan[j].to);
            }
        }
    }
}

#[test]
fn list_plan_pairs_records_with_sorted_entries() {
    // directory contains x, y; list file holds alice, bob
    let plan = plan_with_list("owner_{s}.dat", vec![s("x"), s("y")], "alice\nbob\n")
        .expect("counts match");
    assert_eq!(plan.len(), 2);
    assert_eq!(plan[0].from, s("x"));
    assert_eq!(plan[0].to, s("owner_alice.dat"));
    assert_eq!(plan[1].from, s("y"));
    assert_eq!(plan[1].to, s("owner_bob.dat"));
}

#[test]
fn list_plan_rejects_count_mismatch() {
    // three entries, two records: nothing is planned
    let r = plan_with_list("{s}", vec![s("a"), s("b"), s("c")], "one\ntwo");
    assert!(matches!(r, Err(RunError::CountMismatch)));
}

#[test]
fn config_requires_a_template() {
    let r = Config::build(vec![s("renamer")]);
    assert!(matches!(r, Err(ConfigError::MissingFormat)));
}

#[test]
fn config_rejects_a_bad_template() {
    let r = Config::build(vec![s("renamer"), s("foo{bar}.txt")]);
    assert!(matches!(r, Err(ConfigError::InvalidFormat)));
}

#[test]
fn config_requires_a_list_path_for_substitution() {
    let r = Config::build(vec![s("renamer"), s("owner_{s}.dat")]);
    assert!(matches!(r, Err(ConfigError::MissingListPath)));
}

#[test]
fn config_accepts_id_without_a_path() {
    let c = Config::build(vec![s("renamer"), s("file_{id}.txt")]).expect("valid");
    assert_eq!(c.kind, Placeholder::Id);
    assert_eq!(c.fmt, s("file_{id}.txt"));
    assert!(c.list_path.is_none());
}

#[test]
fn config_keeps_an_extra_path() {
    let c = Config::build(vec![s("renamer"), s("file_{id}.txt"), s("list.txt")]).expect("valid");
    assert_eq!(c.kind, Placeholder::Id);
    assert_eq!(c.list_path, Some(s("list.txt")));
}

#[test]
fn run_with_id_template() {
    let c = Config::build(vec![s("renamer"), s("file_{id}.txt")]).expect("valid");
    let plan = run(&c, vec![s("b.txt"), s("a.txt")], None).expect("id runs succeed");
    assert_eq!(plan[0].from, s("a.txt"));
    assert_eq!(plan[0].to, s("file_1.txt"));
    assert_eq!(plan[1].from, s("b.txt"));
    assert_eq!(plan[1].to, s("file_2.txt"));
}

#[test]
fn run_with_list_template() {
    let c = Config::build(vec![s("renamer"), s("owner_{s}.dat"), s("list.txt")]).expect("valid");
    let plan = run(&c, vec![s("y"), s("x")], Some(s("alice\nbob"))).expect("counts match");
    assert_eq!(plan[0].from, s("x"));
    assert_eq!(plan[0].to, s("owner_alice.dat"));
    assert_eq!(plan[1].from, s("y"));
    assert_eq!(plan[1].to, s("owner_bob.dat"));
}

#[test]
fn run_reports_count_mismatch() {
    let c = Config::build(vec![s("renamer"), s("{s}"), s("list.txt")]).expect("valid");
    let r = run(&c, vec![s("a"), s("b"), s("c")], Some(s("one\ntwo")));
    assert!(matches!(r, Err(RunError::CountMismatch)));
}

#[test]
fn error_messages() {
    assert_eq!(
        ConfigError::MissingFormat.message(),
        s("Please specify the renaming format")
    );
    assert_eq!(
        ConfigError::InvalidFormat.message(),
        s("The format syntax is invalid")
    );
    assert_eq!(
        ConfigError::MissingListPath.message(),
        s("Please provide the path to a list when using the {s} input type")
    );
    assert_eq!(
        RunError::FileRead.message(),
        s("Failed to read the input file")
    );
    assert_eq!(
        RunError::DirRead.message(),
        s("Failed to read the directory entries")
    );
    assert_eq!(
        RunError::CountMismatch.message(),
        s("The number of lines in the input file is different than the number of files in this directory")
    );
    assert_eq!(
        RunError::Rename(s("permission denied")).message(),
        s("Failed to rename files: permission denied")
    );
}

#[test]
fn special_commands_are_recognised() {
    assert_eq!(
        special_command(&vec![s("renamer")]),
        Some(SpecialCommand::Version)
    );
    assert_eq!(
        special_command(&vec![s("renamer"), s("help")]),
        Some(SpecialCommand::Help)
    );
    assert_eq!(special_command(&vec![s("renamer"), s("{id}")]), None);
    assert_eq!(
        special_command(&vec![s("renamer"), s("{s}"), s("list.txt")]),
        None
    );
}

#[test]
fn whitespace_in_template_is_rejected() {
    assert_eq!(validate_template("a\t{id}"), None);
    assert_eq!(validate_template("a\n{id}"), None);
    assert_eq!(validate_template("a\u{a0}{id}"), None);
    assert_eq!(validate_template("a\u{2003}{id}"), None);
}
