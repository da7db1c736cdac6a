use manga_scraper::json::{chapters_document, render_field, Chapter, Json, Render, Value};

fn strings(items: &[&str]) -> Vec<String> {
    items.iter().map(|s| s.to_string()).collect()
}

#[test]
fn extract_i32_gives_number_or_zero() {
    assert_eq!(*Value::<String>::Int(5).extract_i32(), 5);
    assert_eq!(*Value::<String>::Int(-3).extract_i32(), -3);
    assert_eq!(*Value::<String>::String("x".to_string()).extract_i32(), 0);
    assert_eq!(*Value::<String>::Str("7").extract_i32(), 0);
}

#[test]
fn extract_string_gives_borrowed_text_or_empty() {
    assert_eq!(Value::<String>::Str("abc").extract_string(), "abc");
    assert_eq!(Value::<String>::Int(1).extract_string(), "");
    assert_eq!(Value::<String>::String("owned".to_string()).extract_string(), "");
}

#[test]
fn extract_array_gives_items_or_none() {
    let v = Value::<String>::Array(strings(&["a", "b"]));
    assert_eq!(v.extract_array(), &strings(&["a", "b"])[..]);
    assert!(Value::<String>::Object("o".to_string()).extract_array().is_empty());
}

#[test]
fn extract_gives_object_only() {
    let v = Value::<String>::Object("o".to_string());
    assert_eq!(v.extract(), Some(&"o".to_string()));
    assert_eq!(Value::<String>::Array(vec![]).extract(), None);
    assert_eq!(Value::<String>::Int(1).extract(), None);
}

#[test]
fn value_array_renders_items_joined() {
    assert_eq!(Value::<String>::Array(strings(&["a", "b"])).render(), "[a,b]");
    assert_eq!(Value::<String>::Array(vec![]).render(), "[]");
    assert_eq!(Value::<String>::Array(strings(&["only"])).render(), "[only]");
}

#[test]
fn value_other_renders_placeholder() {
    assert_eq!(Value::<String>::Int(3).render(), "formatted arguments");
    assert_eq!(Value::<String>::Str("s").render(), "formatted arguments");
    assert_eq!(Value::<String>::String("s".to_string()).render(), "formatted arguments");
    assert_eq!(Value::<String>::Object("o".to_string()).render(), "formatted arguments");
}

#[test]
fn serialize_array_quotes_all_but_objects() {
    let c = Chapter::new(1, vec![]);
    assert_eq!(
        c.serialize_array(&strings(&["x", "{\"k\":1}", ""])),
        "[\"x\",{\"k\":1},\"\"]"
    );
    assert_eq!(c.serialize_array(&Vec::<String>::new()), "[]");
}

#[test]
fn render_field_per_variant() {
    assert_eq!(render_field("count", &Value::<String>::Int(-42)), "\"count\": -42,");
    assert_eq!(render_field("count", &Value::<String>::Int(i32::MIN)), "\"count\": -2147483648,");
    assert_eq!(render_field("name", &Value::<String>::String("v".to_string())), "\"name\": \"v\",");
    assert_eq!(render_field("name", &Value::<String>::Str("v")), "");
    assert_eq!(render_field("o", &Value::<String>::Object("obj".to_string())), "\"o\": obj,");
    assert_eq!(
        render_field("images", &Value::<String>::Array(strings(&["a", "b"]))),
        "\"images\":[\"a\",\"b\"]"
    );
}

#[test]
fn chapter_renders_as_object() {
    let c = Chapter::new(3, strings(&["http://x/1.png", "http://x/2.png"]));
    let expected = "{\"name\": \"Chapter_3\",\"images\":[\"http://x/1.png\",\"http://x/2.png\"]}";
    assert_eq!(c.render(), expected);
    assert_eq!(c.serialize(), expected);
}

#[test]
fn chapter_serialize_drops_trailing_comma() {
    let c = Chapter { name: Value::String("Chapter_1".to_string()), images: Value::String("s".to_string()) };
    assert_eq!(c.render(), "{\"name\": \"Chapter_1\",\"images\": \"s\",}");
    assert_eq!(c.serialize(), "{\"name\": \"Chapter_1\",\"images\": \"s\"}");
}

#[test]
fn chapter_new_names_by_number() {
    let c = Chapter::new(12, vec![]);
    match c.name {
        Value::String(s) => assert_eq!(s, "Chapter_12"),
        _ => panic!("name is not a string"),
    }
    match c.images {
        Value::Array(v) => assert!(v.is_empty()),
        _ => panic!("images are not an array"),
    }
}

#[test]
fn chapters_document_lists_chapters_without_backslashes() {
    let c1 = Chapter::new(1, strings(&["a\\b"]));
    let c2 = Chapter::new(2, strings(&["c"]));
    let doc = chapters_document(vec![c1, c2]);
    assert_eq!(
        doc,
        "[{\"name\": \"Chapter_1\",\"images\":[\"ab\"]},{\"name\": \"Chapter_2\",\"images\":[\"c\"]}]"
    );
    assert!(!doc.contains('\\'));
    assert_eq!(chapters_document(vec![]), "[]");
}
