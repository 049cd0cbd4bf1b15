use godust::naming::Casing;
use godust::naming::detect_casing;
use godust::naming::split_into_camel_case;
use godust::naming::split_into_kebab_case;
use godust::naming::split_into_pascal_case;
use godust::naming::split_into_snake_case;

#[test]
fn test_detect_casing_snake() {
    assert_eq!(detect_casing("my_project_name"), Casing::SnakeCase);
    assert_eq!(detect_casing("a_b_c"), Casing::SnakeCase);
    assert_eq!(detect_casing("just_one"), Casing::SnakeCase);
}

#[test]
fn test_detect_casing_kebab() {
    assert_eq!(detect_casing("my-project-name"), Casing::KebabCase);
    assert_eq!(detect_casing("a-b-c"), Casing::KebabCase);
    assert_eq!(detect_casing("just-one"), Casing::KebabCase);
}

#[test]
fn test_detect_casing_pascal() {
    assert_eq!(detect_casing("MyProjectName"), Casing::PascalCase);
    assert_eq!(detect_casing("FooBar"), Casing::PascalCase);
    assert_eq!(detect_casing("Project"), Casing::PascalCase);
    assert_eq!(detect_casing("HTTPRequestResponse"), Casing::PascalCase);
}

#[test]
fn test_detect_casing_camel() {
    assert_eq!(detect_casing("myProjectName"), Casing::CamelCase);
    assert_eq!(detect_casing("fooBar"), Casing::CamelCase);
    assert_eq!(detect_casing("httpReqResp"), Casing::CamelCase);
}

#[test]
fn test_detect_casing_undefined_mixed_delimiters() {
    assert_eq!(detect_casing("my_project-name"), Casing::Undefined);
    assert_eq!(detect_casing("my-project_name"), Casing::Undefined);
    assert_eq!(detect_casing("my_project-name_v2"), Casing::Undefined);
}

#[test]
fn test_detect_casing_undefined_invalid_chars() {
    assert_eq!(detect_casing("my!project"), Casing::Undefined);
    assert_eq!(detect_casing("my project"), Casing::Undefined);
    assert_eq!(detect_casing("my@project"), Casing::Undefined);
    assert_eq!(detect_casing("my-project!"), Casing::Undefined);
}

#[test]
fn test_detect_casing_undefined_all_caps() {
    assert_eq!(detect_casing("MYPROJECT"), Casing::Undefined);
    assert_eq!(detect_casing("ANOTHER_ONE"), Casing::Undefined);
    assert_eq!(detect_casing("SOME-THING"), Casing::Undefined);
}

#[test]
fn test_detect_casing_undefined_all_lowercase_no_delimiter() {
    assert_eq!(detect_casing("myproject"), Casing::Undefined);
}

#[test]
fn test_detect_casing_undefined_starts_with_number() {
    assert_eq!(detect_casing("123Project"), Casing::Undefined);
    assert_eq!(detect_casing("1_test"), Casing::Undefined);
}

#[test]
fn test_detect_casing_undefined_snake_with_uppercase() {
    assert_eq!(detect_casing("My_project"), Casing::Undefined);
    assert_eq!(detect_casing("my_Project"), Casing::Undefined);
}

#[test]
fn test_detect_casing_undefined_kebab_with_uppercase() {
    assert_eq!(detect_casing("My-project"), Casing::Undefined);
    assert_eq!(detect_casing("my-Project"), Casing::Undefined);
}

#[test]
fn test_detect_casing_empty_string() {
    assert_eq!(detect_casing(""), Casing::Undefined);
}

#[test]
fn convert_snake_to_pascal() {
    let name = "my_snake_case_name".to_string();
    assert_eq!(
        split_into_pascal_case(&name, Casing::SnakeCase),
        "MySnakeCaseName"
    );
}

#[test]
fn convert_kebab_to_pascal() {
    let name = "my-kebab-case-name".to_string();
    assert_eq!(
        split_into_pascal_case(&name, Casing::KebabCase),
        "MyKebabCaseName"
    );
}

#[test]
fn convert_camel_to_pascal() {
    let name = "myCamelCaseName".to_string();
    assert_eq!(
        split_into_pascal_case(&name, Casing::CamelCase),
        "MyCamelCaseName"
    );
}

#[test]
fn convert_pascal_to_pascal() {
    let name = "MyPascalCaseName".to_string();
    assert_eq!(
        split_into_pascal_case(&name, Casing::PascalCase),
        "MyPascalCaseName"
    );
    let name_acronym = "HTTPRequestResponse".to_string();
    assert_eq!(
        split_into_pascal_case(&name_acronym, Casing::PascalCase),
        "HttpRequestResponse"
    );
}

#[test]
fn full_flow_conversion_test() {
    let input_name = "MyAwesomeProject";
    let detected = detect_casing(input_name);
    assert_eq!(detected, Casing::PascalCase);

    let input_string = input_name.to_string();

    assert_eq!(
        split_into_kebab_case(&input_string, detected),
        "my-awesome-project"
    );

    assert_eq!(
        split_into_pascal_case(&input_string, detected),
        "MyAwesomeProject"
    );

    let input_name_snake = "another_game_thing";
    let detected_snake = detect_casing(input_name_snake);
    assert_eq!(detected_snake, Casing::SnakeCase);
    let input_snake_string = input_name_snake.to_string();
    assert_eq!(
        split_into_pascal_case(&input_snake_string, detected_snake),
        "AnotherGameThing"
    );
}

#[test]
fn snake_round_trip_restores_the_name() {
    let name = "my_project_name";
    let detected = detect_casing(name);
    assert_eq!(detected, Casing::SnakeCase);
    assert_eq!(split_into_snake_case(name, detected), name);
}

#[test]
fn conversion_twice_equals_conversion_once() {
    let name = "MyAwesomeProject";
    let once = split_into_kebab_case(name, detect_casing(name));
    let twice = split_into_kebab_case(&once, detect_casing(&once));
    assert_eq!(twice, once);

    let name2 = "another_game_thing";
    let once2 = split_into_pascal_case(&name2.to_string(), detect_casing(name2));
    let twice2 = split_into_pascal_case(&once2, detect_casing(&once2));
    assert_eq!(twice2, once2);

    let name3 = "some-kebab-name";
    let once3 = split_into_camel_case(name3, detect_casing(name3));
    assert_eq!(once3, "someKebabName");
    let twice3 = split_into_camel_case(&once3, detect_casing(&once3));
    assert_eq!(twice3, once3);

    let name4 = "fooBarBaz";
    let once4 = split_into_snake_case(name4, detect_casing(name4));
    assert_eq!(once4, "foo_bar_baz");
    let twice4 = split_into_snake_case(&once4, detect_casing(&once4));
    assert_eq!(twice4, once4);
}

#[test]
fn undefined_classification_leaves_the_name_unchanged() {
    let name = "MY_WEIRD-name";
    assert_eq!(detect_casing(name), Casing::Undefined);
    assert_eq!(split_into_pascal_case(&name.to_string(), Casing::Undefined), name);
    assert_eq!(split_into_kebab_case(name, Casing::Undefined), name);
    assert_eq!(split_into_snake_case(name, Casing::Undefined), name);
    assert_eq!(split_into_camel_case(name, Casing::Undefined), name);
}

#[test]
fn word_case_helpers() {
    assert_eq!(godust::naming::capitalize_first_char("hTTP"), "Http");
    assert_eq!(godust::naming::capitalize_first_char(""), "");
    assert_eq!(godust::naming::to_all_lowercase("MiXeD42"), "mixed42");
}

#[test]
fn single_letter_words_can_defeat_idempotence() {
    // A single-letter word lands flush against the next word's capital,
    // so the second pass cuts the name differently: this is why the
    // proved idempotence laws ask for words of at least two characters.
    let name = "aBCd".to_string();
    assert_eq!(detect_casing(&name), Casing::CamelCase);
    let once = split_into_pascal_case(&name, detect_casing(&name));
    assert_eq!(once, "ABCd");
    let twice = split_into_pascal_case(&once, detect_casing(&once));
    assert_eq!(twice, "AbCd");
}
