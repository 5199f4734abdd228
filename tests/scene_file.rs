use alpha::components::{Script, Tag};
use alpha::scene_file::{is_space, load_scene, save_scene, EntityRecord, SceneError, SceneField};

fn strings(fields: &[&str]) -> Vec<String> {
    fields.iter().map(|s| s.to_string()).collect()
}

fn record(tag: &str, transform: &[&str], color: &[&str], script: Option<&str>) -> EntityRecord {
    EntityRecord {
        tag: Tag(tag.to_string()),
        transform: strings(transform),
        color: strings(color),
        script: script.map(|s| Script { wasm: s.to_string() }),
    }
}

fn same(a: &EntityRecord, b: &EntityRecord) -> bool {
    a.tag.0 == b.tag.0
        && a.transform == b.transform
        && a.color == b.color
        && a.script.as_ref().map(|s| s.wasm.clone()) == b.script.as_ref().map(|s| s.wasm.clone())
}

#[test]
fn save_writes_records_and_separators() {
    let records = vec![
        record("Player", &["100", "100", "50", "50", "0"], &["1", "0", "0", "1"], None),
        record(
            "Enemy",
            &["-20.5", "3", "10", "20", "45"],
            &["0", "0.5", "1", "1"],
            Some("scripts/enemy.wasm"),
        ),
    ];
    let text = save_scene(&records);
    assert_eq!(
        text,
        "Player\n100 100 50 50 0\n1 0 0 1\n---\nEnemy\n-20.5 3 10 20 45\n0 0.5 1 1\nscripts/enemy.wasm\n---\n"
    );
}

#[test]
fn save_of_no_records_is_empty() {
    assert_eq!(save_scene(&Vec::new()), "");
}

#[test]
fn save_then_load_gives_back_the_records() {
    let records = vec![
        record("A", &["0", "0", "1", "1", "0"], &["0.1", "0.2", "0.3", "1"], None),
        record("B", &["1e3", "-7", "2.25", "9", "359.5"], &["1", "1", "1", "0.5"], Some("b.wasm")),
        record("", &["1", "2", "3", "4", "5"], &["6", "7", "8", "9"], None),
    ];
    let loaded = load_scene(&save_scene(&records)).expect("a saved scene loads");
    assert_eq!(loaded.len(), records.len());
    for (a, b) in loaded.iter().zip(records.iter()) {
        assert!(same(a, b));
    }
}

#[test]
fn float_text_round_trips_exactly() {
    let values: [f32; 5] = [0.1, -123.456, 1.0e-7, 3.4028235e38, 2.5];
    let fields: Vec<String> = values.iter().map(|v| format!("{}", v)).collect();
    let rec = EntityRecord {
        tag: Tag("F".to_string()),
        transform: fields,
        color: strings(&["0.3", "0.6", "0.9", "1"]),
        script: None,
    };
    let loaded = load_scene(&save_scene(&vec![rec])).unwrap();
    let back: Vec<f32> = loaded[0].transform.iter().map(|s| s.parse::<f32>().unwrap()).collect();
    assert_eq!(back, values.to_vec());
}

#[test]
fn load_skips_blank_groups_and_tolerates_missing_last_separator() {
    let text = "\n---\nA\n1 2 3 4 5\n1 1 1 1\n---\n\n\n---\nB\n1 2 3 4 5\n0 0 0 1";
    let loaded = load_scene(text).unwrap();
    assert_eq!(loaded.len(), 2);
    assert_eq!(loaded[0].tag.0, "A");
    assert_eq!(loaded[1].tag.0, "B");
    assert!(loaded[1].script.is_none());
}

#[test]
fn load_of_empty_text_has_no_records() {
    assert_eq!(load_scene("").unwrap().len(), 0);
}

#[test]
fn load_splits_fields_on_runs_of_spaces() {
    let loaded = load_scene("T\n  1   2 3 4  5 \n1 2  3 4\nrun.wasm\n---\n").unwrap();
    assert_eq!(loaded[0].transform, strings(&["1", "2", "3", "4", "5"]));
    assert_eq!(loaded[0].color, strings(&["1", "2", "3", "4"]));
    assert_eq!(loaded[0].script.as_ref().unwrap().wasm, "run.wasm");
}

#[test]
fn load_reports_a_short_record() {
    let err = load_scene("A\n1 2 3 4 5\n---\n").err().unwrap();
    assert_eq!(err, SceneError { record: 0, field: SceneField::Layout });
}

#[test]
fn load_reports_a_long_record() {
    let err = load_scene("A\n1 2 3 4 5\n1 1 1 1\ns\nextra\n---\n").err().unwrap();
    assert_eq!(err, SceneError { record: 0, field: SceneField::Layout });
}

#[test]
fn load_reports_transform_field_count_with_record_index() {
    let text = "A\n1 2 3 4 5\n1 1 1 1\n---\n\n---\nB\n1 2 3 4\n1 1 1 1\n---\n";
    let err = load_scene(text).err().unwrap();
    assert_eq!(err, SceneError { record: 1, field: SceneField::Transform });
}

#[test]
fn load_reports_color_field_count() {
    let err = load_scene("A\n1 2 3 4 5\n1 1 1 1 1\n---\n").err().unwrap();
    assert_eq!(err, SceneError { record: 0, field: SceneField::Color });
}

#[test]
fn load_reports_the_first_bad_record_only() {
    let text = "A\n1 2\n1 1 1 1\n---\nB\n---\n";
    let err = load_scene(text).err().unwrap();
    assert_eq!(err, SceneError { record: 0, field: SceneField::Transform });
}

#[test]
fn a_last_record_without_separator_has_no_script() {
    let loaded = load_scene("A\n1 2 3 4 5\n1 2 3 4\n").unwrap();
    assert_eq!(loaded.len(), 1);
    assert!(loaded[0].script.is_none());
    assert_eq!(loaded[0].color, strings(&["1", "2", "3", "4"]));
}

#[test]
fn a_last_record_with_a_script_and_no_separator() {
    let loaded = load_scene("A\n1 2 3 4 5\n1 2 3 4\ns.wasm\n").unwrap();
    assert_eq!(loaded[0].script.as_ref().unwrap().wasm, "s.wasm");
}

#[test]
fn fields_may_be_separated_by_any_whitespace() {
    let loaded = load_scene("T\n1\t2 \t3\u{a0}4\r5\n1\t1\t1\t1\n---\n").unwrap();
    assert_eq!(loaded[0].transform, strings(&["1", "2", "3", "4", "5"]));
    assert_eq!(loaded[0].color, strings(&["1", "1", "1", "1"]));
}

#[test]
fn whitespace_is_what_char_says_it_is() {
    for u in 0u32..0x3100 {
        if let Some(c) = char::from_u32(u) {
            assert_eq!(is_space(c), c.is_whitespace(), "U+{:04X}", u);
        }
    }
}

#[test]
fn a_script_line_is_trimmed() {
    let loaded = load_scene("A\n1 2 3 4 5\n1 2 3 4\n \t b.wasm \r\n---\n").unwrap();
    assert_eq!(loaded[0].script.as_ref().unwrap().wasm, "b.wasm");
    let blank = load_scene("A\n1 2 3 4 5\n1 2 3 4\n   \n---\n").unwrap();
    assert_eq!(blank[0].script.as_ref().unwrap().wasm, "");
}

#[test]
fn a_saved_script_with_outer_spaces_loads_trimmed() {
    let rec = record("A", &["1", "2", "3", "4", "5"], &["1", "2", "3", "4"], Some(" b"));
    let loaded = load_scene(&save_scene(&vec![rec])).unwrap();
    assert_eq!(loaded[0].script.as_ref().unwrap().wasm, "b");
}
