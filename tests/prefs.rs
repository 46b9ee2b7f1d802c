use servo_prefs::loader::{load_defaults, lookup_path};
use servo_prefs::prefs::{
    add_user_prefs, black, default_layout_threads, keys_distinct, layout_threads_for, pref_map,
    read_prefs_map, white, OverrideMember,
};
use servo_prefs::shared::SharedPrefs;
use servo_prefs::store::{fits_shape, PrefError, PrefField, Shape};
use servo_prefs::value::{JsonNode, PrefValue};

fn s(x: &str) -> String {
    x.to_string()
}

fn field(key: &str, path: &[&str], shape: Shape, default: Option<PrefValue>) -> PrefField {
    PrefField {
        key: s(key),
        path: path.iter().map(|p| s(p)).collect(),
        shape,
        default,
    }
}

fn obj(members: Vec<(&str, JsonNode)>) -> JsonNode {
    JsonNode::Object(members.into_iter().map(|(k, v)| (s(k), v)).collect())
}

fn schema() -> Vec<PrefField> {
    vec![
        field("dom.bluetooth.enabled", &["dom", "bluetooth", "enabled"], Shape::Bool, None),
        field("layout.threads", &["layout", "threads"], Shape::Int, Some(PrefValue::Int(3))),
        field(
            "shell.background-color.rgba",
            &["shell", "background_color", "shell.background-color.rgba"],
            Shape::FloatArray(4),
            None,
        ),
        field("shell.homepage", &["shell", "homepage"], Shape::Str, Some(PrefValue::Str(s("about:blank")))),
        field("browser.display.background_color", &["browser", "display", "background_color"], Shape::Int, Some(PrefValue::Int(white()))),
    ]
}

fn rgba(v: [f64; 4]) -> JsonNode {
    JsonNode::Array(v.iter().map(|x| JsonNode::Float(x.to_bits())).collect())
}

fn defaults_doc() -> JsonNode {
    obj(vec![
        ("dom", obj(vec![("bluetooth", obj(vec![("enabled", JsonNode::Bool(false))]))])),
        ("layout", obj(vec![("threads", JsonNode::Int(4))])),
        (
            "shell",
            obj(vec![
                ("background_color", obj(vec![("shell.background-color.rgba", rgba([0.0, 0.0, 0.0, 1.0]))])),
                ("homepage", JsonNode::Str(s("https://servo.org"))),
            ]),
        ),
    ])
}

fn store() -> servo_prefs::store::Preferences {
    pref_map(schema(), &defaults_doc()).expect("defaults load")
}

#[test]
fn generic_round_trip_scalars() {
    let values = vec![
        PrefValue::Bool(true),
        PrefValue::Int(-42),
        PrefValue::Float(2.5f64.to_bits()),
        PrefValue::Str(s("hello")),
    ];
    for v in values {
        let node = v.to_generic();
        assert_eq!(PrefValue::from_generic(&node), Some(v));
    }
}

#[test]
fn generic_round_trip_flat_array() {
    let v = PrefValue::Array(vec![PrefValue::Float(1.0f64.to_bits()), PrefValue::Int(2)]);
    assert_eq!(PrefValue::from_generic(&v.to_generic()), Some(v));
}

#[test]
fn to_generic_gives_matching_nodes() {
    assert_eq!(PrefValue::Int(7).to_generic(), JsonNode::Int(7));
    assert_eq!(PrefValue::Str(s("x")).to_generic(), JsonNode::Str(s("x")));
    let nested = PrefValue::Array(vec![PrefValue::Array(vec![])]);
    assert_eq!(nested.to_generic(), JsonNode::Array(vec![JsonNode::Null]));
}

#[test]
fn from_generic_rejects_other_nodes() {
    assert_eq!(PrefValue::from_generic(&JsonNode::Null), None);
    assert_eq!(PrefValue::from_generic(&JsonNode::Uint(u64::MAX)), None);
    assert_eq!(PrefValue::from_generic(&obj(vec![])), None);
    let partial = JsonNode::Array(vec![JsonNode::Int(1), JsonNode::Null]);
    assert_eq!(PrefValue::from_generic(&partial), None);
    let nested = JsonNode::Array(vec![JsonNode::Array(vec![])]);
    assert_eq!(PrefValue::from_generic(&nested), None);
    assert_eq!(PrefValue::from_json_value(&JsonNode::Array(vec![])), None);
}

#[test]
fn set_then_get_returns_value() {
    let mut p = store();
    assert_eq!(p.set("layout.threads", PrefValue::Int(9)), Ok(()));
    assert_eq!(p.get("layout.threads"), Ok(PrefValue::Int(9)));
    assert_eq!(p.set("shell.homepage", PrefValue::Str(s("about:config"))), Ok(()));
    assert_eq!(p.get("shell.homepage"), Ok(PrefValue::Str(s("about:config"))));
}

#[test]
fn set_with_wrong_shape_is_mismatch_and_unchanged() {
    let mut p = store();
    assert_eq!(
        p.set("dom.bluetooth.enabled", PrefValue::Str(s("yes"))),
        Err(PrefError::TypeMismatch(s("dom.bluetooth.enabled")))
    );
    assert_eq!(p.get("dom.bluetooth.enabled"), Ok(PrefValue::Bool(false)));
    let short = PrefValue::Array(vec![PrefValue::Float(0)]);
    assert_eq!(
        p.set("shell.background-color.rgba", short),
        Err(PrefError::TypeMismatch(s("shell.background-color.rgba")))
    );
}

#[test]
fn get_unknown_key_is_no_such_pref() {
    let p = store();
    assert_eq!(p.get("no.such.key"), Err(PrefError::NoSuchPref(s("no.such.key"))));
    assert_eq!(p.get("layout.threads"), Ok(PrefValue::Int(4)));
}

#[test]
fn set_unknown_key_is_no_such_pref() {
    let mut p = store();
    assert_eq!(p.set("nope", PrefValue::Bool(true)), Err(PrefError::NoSuchPref(s("nope"))));
}

#[test]
fn set_all_stops_at_first_failure() {
    let mut p = store();
    let entries = vec![
        (s("dom.bluetooth.enabled"), PrefValue::Int(1)),
        (s("layout.threads"), PrefValue::Int(12)),
    ];
    assert_eq!(p.set_all(entries), Err(PrefError::TypeMismatch(s("dom.bluetooth.enabled"))));
    assert_eq!(p.get("dom.bluetooth.enabled"), Ok(PrefValue::Bool(false)));
    assert_eq!(p.get("layout.threads"), Ok(PrefValue::Int(4)));
}

#[test]
fn set_all_keeps_writes_before_failure() {
    let mut p = store();
    let entries = vec![
        (s("layout.threads"), PrefValue::Int(12)),
        (s("missing"), PrefValue::Int(1)),
        (s("dom.bluetooth.enabled"), PrefValue::Bool(true)),
    ];
    assert_eq!(p.set_all(entries), Err(PrefError::NoSuchPref(s("missing"))));
    assert_eq!(p.get("layout.threads"), Ok(PrefValue::Int(12)));
    assert_eq!(p.get("dom.bluetooth.enabled"), Ok(PrefValue::Bool(false)));
}

#[test]
fn add_user_prefs_applies_all() {
    let mut p = store();
    let r = add_user_prefs(
        &mut p,
        vec![(s("layout.threads"), PrefValue::Int(2)), (s("dom.bluetooth.enabled"), PrefValue::Bool(true))],
    );
    assert_eq!(r, Ok(()));
    assert_eq!(p.get("layout.threads"), Ok(PrefValue::Int(2)));
    assert_eq!(p.get("dom.bluetooth.enabled"), Ok(PrefValue::Bool(true)));
}

#[test]
fn add_user_prefs_reports_wrong_shape() {
    let mut p = store();
    let r = add_user_prefs(
        &mut p,
        vec![(s("dom.bluetooth.enabled"), PrefValue::Str(s("on"))), (s("layout.threads"), PrefValue::Int(8))],
    );
    assert_eq!(r, Err(PrefError::TypeMismatch(s("dom.bluetooth.enabled"))));
    assert_eq!(p.get("dom.bluetooth.enabled"), Ok(PrefValue::Bool(false)));
    assert_eq!(p.get("layout.threads"), Ok(PrefValue::Int(4)));
}

#[test]
fn add_user_prefs_reports_unknown_key_after_writes() {
    let mut p = store();
    let r = add_user_prefs(
        &mut p,
        vec![(s("layout.threads"), PrefValue::Int(8)), (s("unknown"), PrefValue::Int(1))],
    );
    assert_eq!(r, Err(PrefError::NoSuchPref(s("unknown"))));
    assert_eq!(p.get("layout.threads"), Ok(PrefValue::Int(8)));
}

fn member(key: &str, value: JsonNode, text: &str) -> OverrideMember {
    OverrideMember { key: s(key), value, text: s(text) }
}

#[test]
fn read_prefs_map_converts_members() {
    let doc = vec![
        member("a", JsonNode::Bool(true), "true"),
        member("b", JsonNode::Float(0.5f64.to_bits()), "0.5"),
        member("c", JsonNode::Array(vec![JsonNode::Int(1), JsonNode::Str(s("x"))]), "[1,\"x\"]"),
    ];
    let r = read_prefs_map(&doc).unwrap();
    assert_eq!(
        r,
        vec![
            (s("a"), PrefValue::Bool(true)),
            (s("b"), PrefValue::Float(0.5f64.to_bits())),
            (s("c"), PrefValue::Array(vec![PrefValue::Int(1), PrefValue::Str(s("x"))])),
        ]
    );
}

#[test]
fn read_prefs_map_rejects_array_with_object() {
    let doc = vec![
        member("good", JsonNode::Int(1), "1"),
        member("bad", JsonNode::Array(vec![JsonNode::Int(1), obj(vec![("k", JsonNode::Int(2))])]), "[1,{\"k\":2}]"),
    ];
    assert_eq!(read_prefs_map(&doc), Err(PrefError::InvalidValue(s("Invalid value: [1,{\"k\":2}]"))));
}

#[test]
fn read_prefs_map_rejects_null_and_large_numbers() {
    assert_eq!(
        read_prefs_map(&vec![member("n", JsonNode::Null, "null")]),
        Err(PrefError::InvalidValue(s("Invalid value: null")))
    );
    assert_eq!(
        read_prefs_map(&vec![member("u", JsonNode::Uint(1 << 63), "9223372036854775808")]),
        Err(PrefError::InvalidValue(s("Invalid value: 9223372036854775808")))
    );
}

#[test]
fn scalars_convert_into_values() {
    assert_eq!(PrefValue::from(true), PrefValue::Bool(true));
    assert_eq!(PrefValue::from(-3i64), PrefValue::Int(-3));
    assert_eq!(PrefValue::from(s("x")), PrefValue::Str(s("x")));
    let mut p = store();
    assert_eq!(p.set("layout.threads", 5i64.into()), Ok(()));
    assert_eq!(p.get("layout.threads"), Ok(PrefValue::Int(5)));
}

#[test]
fn defaults_fill_missing_fields() {
    let p = store();
    assert_eq!(p.get("browser.display.background_color"), Ok(PrefValue::Int(0xFFFFFF)));
    assert_eq!(p.get("shell.homepage"), Ok(PrefValue::Str(s("https://servo.org"))));
    assert_eq!(p.len(), 5);
}

#[test]
fn missing_field_without_default_fails_load() {
    let doc = obj(vec![("layout", obj(vec![("threads", JsonNode::Int(4))]))]);
    let r = load_defaults(&schema(), &doc);
    assert_eq!(r, Err(PrefError::JsonParseErr(s("dom.bluetooth.enabled"))));
    assert!(pref_map(schema(), &doc).is_err());
}

#[test]
fn load_reports_bad_value_and_bad_shape() {
    let fields = vec![field("x", &["x"], Shape::Bool, None)];
    let doc = obj(vec![("x", JsonNode::Null)]);
    assert_eq!(load_defaults(&fields, &doc), Err(PrefError::InvalidValue(s("x"))));
    let doc2 = obj(vec![("x", JsonNode::Int(1))]);
    assert_eq!(load_defaults(&fields, &doc2), Err(PrefError::TypeMismatch(s("x"))));
}

#[test]
fn lookup_path_follows_members() {
    let doc = defaults_doc();
    let path = vec![s("layout"), s("threads")];
    assert_eq!(lookup_path(&doc, &path), Some(&JsonNode::Int(4)));
    assert_eq!(lookup_path(&doc, &vec![s("layout"), s("none")]), None);
    assert_eq!(lookup_path(&doc, &vec![]), Some(&doc));
}

#[test]
fn shapes_check_values() {
    let four = PrefValue::Array(vec![PrefValue::Float(0); 4]);
    assert!(fits_shape(&four, Shape::FloatArray(4)));
    assert!(!fits_shape(&four, Shape::FloatArray(3)));
    let mixed = PrefValue::Array(vec![PrefValue::Float(0), PrefValue::Int(0)]);
    assert!(!fits_shape(&mixed, Shape::FloatArray(2)));
    assert!(fits_shape(&PrefValue::Bool(true), Shape::Bool));
    assert!(!fits_shape(&PrefValue::Int(1), Shape::Float));
}

#[test]
fn duplicate_keys_are_found() {
    assert!(keys_distinct(&schema()));
    let mut fields = schema();
    fields.push(field("layout.threads", &["other"], Shape::Int, None));
    assert!(!keys_distinct(&fields));
}

#[test]
fn colours() {
    assert_eq!(black(), 0);
    assert_eq!(white(), 0xFFFFFF);
}

#[test]
fn layout_threads_formula() {
    assert_eq!(layout_threads_for(0), 1);
    assert_eq!(layout_threads_for(1), 1);
    assert_eq!(layout_threads_for(2), 1);
    assert_eq!(layout_threads_for(4), 3);
    assert_eq!(layout_threads_for(8), 6);
    assert_eq!(layout_threads_for(10), 7);
}

#[test]
fn default_layout_threads_uses_cpu_count() {
    let expected = std::cmp::max(num_cpus::get() * 3 / 4, 1) as i64;
    assert_eq!(default_layout_threads(), expected);
    assert!(default_layout_threads() >= 1);
}

#[test]
fn shared_store_reads_and_writes() {
    let shared = SharedPrefs::new(store());
    let after = PrefValue::Str(s("https://example.org/home"));
    assert_eq!(shared.get("shell.homepage"), Ok(PrefValue::Str(s("https://servo.org"))));
    assert_eq!(shared.set("shell.homepage", after.clone()), Ok(()));
    assert_eq!(shared.get("shell.homepage"), Ok(after));
    assert_eq!(shared.get("nope"), Err(PrefError::NoSuchPref(s("nope"))));
    assert_eq!(
        shared.set("layout.threads", PrefValue::Bool(true)),
        Err(PrefError::TypeMismatch(s("layout.threads")))
    );
    assert_eq!(shared.get("layout.threads"), Ok(PrefValue::Int(4)));
}

#[test]
fn shared_set_all_stops_at_first_failure() {
    let shared = SharedPrefs::new(store());
    let entries = vec![
        (s("layout.threads"), PrefValue::Int(7)),
        (s("shell.homepage"), PrefValue::Int(1)),
        (s("dom.bluetooth.enabled"), PrefValue::Bool(true)),
    ];
    assert_eq!(shared.set_all(entries), Err(PrefError::TypeMismatch(s("shell.homepage"))));
    assert_eq!(shared.get("layout.threads"), Ok(PrefValue::Int(7)));
    assert_eq!(shared.get("dom.bluetooth.enabled"), Ok(PrefValue::Bool(false)));
    assert_eq!(shared.set_all(vec![(s("dom.bluetooth.enabled"), PrefValue::Bool(true))]), Ok(()));
    assert_eq!(shared.get("dom.bluetooth.enabled"), Ok(PrefValue::Bool(true)));
}

#[test]
fn access_by_position() {
    let mut p = store();
    assert_eq!(p.value_at(1), &PrefValue::Int(4));
    assert_eq!(p.set_at(1, PrefValue::Int(10)), Ok(()));
    assert_eq!(p.get("layout.threads"), Ok(PrefValue::Int(10)));
    assert_eq!(p.set_at(0, PrefValue::Int(1)), Err(PrefError::TypeMismatch(s("dom.bluetooth.enabled"))));
    assert_eq!(p.value_at(0), &PrefValue::Bool(false));
    let shared = SharedPrefs::new(store());
    assert_eq!(shared.len(), 5);
    assert_eq!(shared.get_at(3), PrefValue::Str(s("https://servo.org")));
    assert_eq!(shared.set_at(3, PrefValue::Str(s("about:blank"))), Ok(()));
    assert_eq!(shared.get("shell.homepage"), Ok(PrefValue::Str(s("about:blank"))));
    assert_eq!(shared.set_at(3, PrefValue::Bool(true)), Err(PrefError::TypeMismatch(s("shell.homepage"))));
}

#[test]
fn missing_layout_threads_takes_cpu_based_default() {
    let cpus: usize = 8;
    let fields = vec![field(
        "layout.threads",
        &["layout", "threads"],
        Shape::Int,
        Some(PrefValue::Int(layout_threads_for(cpus))),
    )];
    let doc = obj(vec![("layout", obj(vec![]))]);
    let p = pref_map(fields, &doc).unwrap();
    assert_eq!(p.get("layout.threads"), Ok(PrefValue::Int(6)));
}
