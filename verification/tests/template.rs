use osc_commands::osc::{Color, Midi, OscArg, TimeTag};
use osc_commands::template::{placeholder_chars, render_arg, substitute};
use osc_commands::text::string_of;

fn text(s: &str) -> OscArg {
    OscArg::String(s.to_string())
}

#[test]
fn placeholder_is_dollar_and_index() {
    assert_eq!(string_of(&placeholder_chars(0)), "$0");
    assert_eq!(string_of(&placeholder_chars(7)), "$7");
    assert_eq!(string_of(&placeholder_chars(10)), "$10");
    assert_eq!(string_of(&placeholder_chars(123)), "$123");
}

#[test]
fn integers_are_rendered_quoted() {
    assert_eq!(render_arg(&OscArg::Int(5)), Some("\"5\"".to_string()));
    assert_eq!(render_arg(&OscArg::Int(-17)), Some("\"-17\"".to_string()));
    assert_eq!(render_arg(&OscArg::Int(i32::MIN)), Some("\"-2147483648\"".to_string()));
    assert_eq!(render_arg(&OscArg::Long(1 << 40)), Some("\"1099511627776\"".to_string()));
    assert_eq!(
        render_arg(&OscArg::Long(i64::MIN)),
        Some("\"-9223372036854775808\"".to_string())
    );
}

#[test]
fn floats_are_rendered_quoted() {
    assert_eq!(render_arg(&OscArg::Float(1.5f32.to_string())), Some("\"1.5\"".to_string()));
    assert_eq!(render_arg(&OscArg::Double((-0.25f64).to_string())), Some("\"-0.25\"".to_string()));
    assert_eq!(render_arg(&OscArg::Float(f32::NAN.to_string())), Some("\"NaN\"".to_string()));
}

#[test]
fn strings_chars_and_bools_are_rendered_quoted() {
    assert_eq!(render_arg(&text("hi")), Some("\"hi\"".to_string()));
    assert_eq!(render_arg(&text("")), Some("\"\"".to_string()));
    assert_eq!(render_arg(&text("a b; rm")), Some("\"a b; rm\"".to_string()));
    assert_eq!(render_arg(&OscArg::Char('x')), Some("\"x\"".to_string()));
    assert_eq!(render_arg(&OscArg::Char('語')), Some("\"語\"".to_string()));
    assert_eq!(render_arg(&OscArg::Bool(true)), Some("\"true\"".to_string()));
    assert_eq!(render_arg(&OscArg::Bool(false)), Some("\"false\"".to_string()));
}

#[test]
fn time_tags_and_colors_are_rendered_quoted() {
    let t = TimeTag { seconds: 12, fractional: 345 };
    assert_eq!(render_arg(&OscArg::Time(t)), Some("\"12.345\"".to_string()));
    let t = TimeTag { seconds: u32::MAX, fractional: 0 };
    assert_eq!(render_arg(&OscArg::Time(t)), Some("\"4294967295.0\"".to_string()));
    let c = Color { red: 1, green: 20, blue: 255, alpha: 0 };
    assert_eq!(render_arg(&OscArg::Color(c)), Some("\"rgba(1, 20, 255, 0)\"".to_string()));
}

#[test]
fn nil_and_inf_are_bare_words() {
    assert_eq!(render_arg(&OscArg::Nil), Some("null".to_string()));
    assert_eq!(render_arg(&OscArg::Inf), Some("inf".to_string()));
}

#[test]
fn every_value_kind_is_wrapped_in_quotes() {
    let values = vec![
        OscArg::Int(0),
        OscArg::Long(-1),
        OscArg::Float("0.5".to_string()),
        OscArg::Double("2".to_string()),
        text("\"already\""),
        OscArg::Char('"'),
        OscArg::Bool(true),
        OscArg::Time(TimeTag { seconds: 0, fractional: 0 }),
        OscArg::Color(Color { red: 0, green: 0, blue: 0, alpha: 0 }),
    ];
    for v in &values {
        let r = render_arg(v).unwrap();
        assert!(r.len() >= 2);
        assert!(r.starts_with('"'));
        assert!(r.ends_with('"'));
    }
    for v in [OscArg::Nil, OscArg::Inf] {
        assert!(!render_arg(&v).unwrap().contains('"'));
    }
}

#[test]
fn blobs_midi_and_arrays_have_no_rendering() {
    assert_eq!(render_arg(&OscArg::Blob(vec![1, 2, 3])), None);
    let m = Midi { port: 1, status: 2, data1: 3, data2: 4 };
    assert_eq!(render_arg(&OscArg::Midi(m)), None);
    assert_eq!(render_arg(&OscArg::Array(vec![OscArg::Int(1)])), None);
}

#[test]
fn substitute_replaces_every_occurrence() {
    let args = vec![text("hi"), OscArg::Int(3)];
    assert_eq!(substitute("echo $0", &args), "echo \"hi\"");
    assert_eq!(substitute("$0 $1 $0 $1", &args), "\"hi\" \"3\" \"hi\" \"3\"");
    assert_eq!(substitute("$1$1", &args), "\"3\"\"3\"");
}

#[test]
fn substitute_leaves_later_placeholders() {
    let args = vec![text("hi"), OscArg::Int(3)];
    assert_eq!(substitute("echo $2 $0 $3", &args), "echo $2 \"hi\" $3");
    assert_eq!(substitute("echo $0", &Vec::new()), "echo $0");
    assert_eq!(substitute("a$5b", &args), "a$5b");
}

#[test]
fn substitute_takes_a_placeholder_that_begins_a_longer_one() {
    let args = vec![text("a"), text("b")];
    assert_eq!(substitute("$10", &args), "\"b\"0");
    assert_eq!(substitute("$00", &args), "\"a\"0");
}

#[test]
fn substitute_with_eleven_arguments() {
    let mut args = Vec::new();
    for i in 0..11 {
        args.push(OscArg::Int(100 + i));
    }
    assert_eq!(substitute("$9 $2", &args), "\"109\" \"102\"");
    assert_eq!(substitute("$10", &args), "\"101\"0");
}

#[test]
fn substitute_goes_by_ascending_index() {
    let args = vec![text("$1"), text("x")];
    assert_eq!(substitute("$0", &args), "\"\"x\"\"");
    let args = vec![text("x"), text("$0")];
    assert_eq!(substitute("$1", &args), "\"$0\"");
}

#[test]
fn substitute_leaves_unsupported_kinds_unreplaced() {
    let args = vec![OscArg::Blob(vec![0]), OscArg::Nil, OscArg::Array(Vec::new()), OscArg::Inf];
    assert_eq!(substitute("$0 $1 $2 $3", &args), "$0 null $2 inf");
}

#[test]
fn substitute_without_placeholders_changes_nothing() {
    let args = vec![text("hi")];
    assert_eq!(substitute("ls -la /tmp", &args), "ls -la /tmp");
    assert_eq!(substitute("", &args), "");
    assert_eq!(substitute("cost: 5$", &args), "cost: 5$");
}
