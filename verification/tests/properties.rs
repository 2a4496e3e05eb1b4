use casbab;

fn all_eleven(s: &str) -> Vec<String> {
    vec![
        casbab::camel(s),
        casbab::pascal(s),
        casbab::snake(s),
        casbab::camel_snake(s),
        casbab::screaming_snake(s),
        casbab::kebab(s),
        casbab::camel_kebab(s),
        casbab::screaming_kebab(s),
        casbab::lower(s),
        casbab::title(s),
        casbab::screaming(s),
    ]
}

#[test]
fn idempotence_within_a_family() {
    let inputs = [
        "camelSnakeKebab",
        "__ Camel-snakeKEBAB__",
        "xCamelXXSnakeXXXKebab",
        " Ово је Brave NewСвет",
        "-CAMEL   Snake_kebab ----",
    ];
    for input in inputs {
        let once = all_eleven(input);
        for (first, second) in once.iter().zip([
            casbab::camel(&once[0]),
            casbab::pascal(&once[1]),
            casbab::snake(&once[2]),
            casbab::camel_snake(&once[3]),
            casbab::screaming_snake(&once[4]),
            casbab::kebab(&once[5]),
            casbab::camel_kebab(&once[6]),
            casbab::screaming_kebab(&once[7]),
            casbab::lower(&once[8]),
            casbab::title(&once[9]),
            casbab::screaming(&once[10]),
        ]) {
            assert_eq!(*first, second);
        }
    }
}

#[test]
fn cross_family_round_trip_loses_runs() {
    // Without leading or trailing runs, a kebab result survives a trip
    // through snake and back.
    for input in ["camelSnakeKebab", "camel_snake_kebab"] {
        let k = casbab::kebab(input);
        assert_eq!(casbab::kebab(&casbab::snake(&k)), k);
    }
    // A hyphen run survives within the kebab family but not across
    // families: snake drops it, and it does not come back.
    let k = casbab::kebab("--camel-snake-kebab");
    assert_eq!(k, "--camel-snake-kebab");
    assert_eq!(casbab::snake(&k), "camel_snake_kebab");
    assert_eq!(casbab::kebab(&casbab::snake(&k)), "camel-snake-kebab");
}

#[test]
fn word_count_invariance() {
    let inputs = [
        "camelSnakeKebab",
        "__ Camel-snakeKEBAB__",
        "xCamelXXSnakeXXXKebab",
        "Ово је Brave NewСвет",
    ];
    for input in inputs {
        let lower_words = casbab::lower(input).split(' ').count();
        let title_words = casbab::title(input).split(' ').count();
        let screaming_words = casbab::screaming(input).split(' ').count();
        assert_eq!(lower_words, title_words);
        assert_eq!(lower_words, screaming_words);
    }
}

#[test]
fn acronym_boundary() {
    assert_eq!(casbab::pascal("xCamelXXSnakeXXXKebab"), "XCamelXxSnakeXxxKebab");
    assert_eq!(casbab::snake("XMLParser"), "xml_parser");
    assert_eq!(casbab::snake("Xyz"), "xyz");
}

#[test]
fn delimiter_preservation_asymmetry() {
    assert_eq!(casbab::kebab("__camel_snake_kebab"), "camel-snake-kebab");
    assert_eq!(casbab::snake("__camel_snake_kebab"), "__camel_snake_kebab");
    assert_eq!(casbab::screaming("__camel_snake_kebab"), "CAMEL SNAKE KEBAB");
    assert_eq!(casbab::camel_kebab("--camel-snake-kebab"), "--Camel-Snake-Kebab");
    assert_eq!(casbab::snake("--camel-snake-kebab"), "camel_snake_kebab");
}

#[test]
fn mixed_script_case_mapping() {
    assert_eq!(casbab::snake("Ово је Brave NewСвет"), "ово_је_brave_new_свет");
    assert_eq!(casbab::screaming_kebab("Ово је Brave NewСвет"), "ОВО-ЈЕ-BRAVE-NEW-СВЕТ");
}

#[test]
fn empty_and_whitespace_only_input() {
    for input in ["", " ", "     "] {
        for result in all_eleven(input) {
            assert_eq!(result, "");
        }
    }
}

#[test]
fn literal_scenario() {
    let input = "__camel_snake_kebab__";
    assert_eq!(casbab::camel_snake(input), "__Camel_Snake_Kebab__");
    assert_eq!(casbab::kebab(input), "camel-snake-kebab");
    assert_eq!(casbab::screaming(input), "CAMEL SNAKE KEBAB");
}

#[test]
fn delimiter_only_input_drops_runs() {
    // The run counter falls back to 0 when every character matches the
    // delimiter, so a delimiter-only input keeps nothing.
    assert_eq!(casbab::snake("___"), "");
    assert_eq!(casbab::kebab("---"), "");
    // With a foreign delimiter in the middle, the runs before and
    // after it are one character each.
    assert_eq!(casbab::snake("_-_"), "__");
}

#[test]
fn case_transforms_change_their_input() {
    assert_eq!(casbab::snake("ABC"), "abc");
    assert_eq!(casbab::screaming("abc"), "ABC");
    assert_eq!(casbab::title("abc def"), "Abc Def");
    assert_eq!(casbab::snake("aB"), "a_b");
    assert_eq!(casbab::camel("deja vu"), "dejaVu");
}

#[test]
fn one_character_can_uppercase_to_several() {
    assert_eq!(casbab::screaming("straße"), "STRASSE");
    assert_eq!(casbab::title("ßeta"), "SSeta");
}
