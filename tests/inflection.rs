use pg_entities::inflection::{capitalize_first, singularize, to_camel_case, to_snake_case};

#[test]
fn test_pascal_to_camel_case() {
    let res = to_camel_case("PascalCase");
    assert_eq!(res, "pascalCase");
}

#[test]
fn test_snake_to_camel_case() {
    let res = to_camel_case("snake_case");
    assert_eq!(res, "snakeCase");
}

#[test]
fn test_kebab_to_camel_case() {
    let res = to_camel_case("kebab-case");
    assert_eq!(res, "kebabCase");
}

#[test]
fn test_pascal_to_snake_case() {
    let res = to_snake_case("PascalCase");
    assert_eq!(res, "pascal_case");
}

#[test]
fn test_camel_to_snake_case() {
    let res = to_snake_case("camelCase");
    assert_eq!(res, "camel_case");
}

#[test]
fn test_kebab_to_snake_case() {
    let res = to_snake_case("kebab-case");
    assert_eq!(res, "kebab_case");
}

#[test]
fn test_singularize() {
    assert_eq!(singularize("countries"), "country");
    assert_eq!(singularize("states"), "state");
}

#[test]
fn acronym_to_snake_case() {
    assert_eq!(to_snake_case("APIResponse"), "api_response");
    assert_eq!(to_snake_case("API_Response"), "api_response");
}

#[test]
fn snake_and_acronym_to_camel_case() {
    assert_eq!(to_camel_case("api_response"), "apiResponse");
    assert_eq!(to_camel_case("APIResponse"), "apiresponse");
    assert_eq!(to_camel_case("API_Response"), "apiResponse");
}

#[test]
fn camel_case_of_camel_case_is_unchanged() {
    for x in ["customer_orders", "PascalCase", "kebab-case-name", "already1Camel", "a1B2C"] {
        let once = to_camel_case(x);
        assert_eq!(to_camel_case(&once), once);
    }
    assert_eq!(to_camel_case("customerOrders"), "customerOrders");
}

#[test]
fn camel_case_separator_runs_and_spaces() {
    assert_eq!(to_camel_case("first__second--third"), "firstSecondThird");
    assert_eq!(to_camel_case("two words"), "twoWords");
    assert_eq!(to_camel_case("_leading"), "Leading");
    assert_eq!(to_camel_case(""), "");
}

#[test]
fn snake_case_digits_and_runs() {
    assert_eq!(to_snake_case("version2Name"), "version2_name");
    assert_eq!(to_snake_case("HTTPServer"), "http_server");
    assert_eq!(to_snake_case("ABC"), "abc");
}

#[test]
fn capitalize_first_raises_only_the_first_letter() {
    assert_eq!(capitalize_first("hello world"), "Hello world");
    assert_eq!(capitalize_first("xML"), "XML");
    assert_eq!(capitalize_first(""), "");
}

#[test]
fn singularize_camel_case_table_name() {
    assert_eq!(singularize("customerOrders"), "customerOrder");
}

#[test]
fn case_mapping_follows_unicode() {
    assert_eq!(capitalize_first("élan"), "Élan");
    assert_eq!(capitalize_first("ßa"), "SSa");
    assert_eq!(to_camel_case("Élan_vital"), "élanVital");
    assert_eq!(to_camel_case("über_ämter"), "überÄmter");
    assert_eq!(to_snake_case("Ärger"), "ärger");
    assert_eq!(to_snake_case("straßeName"), "straße_name");
}
