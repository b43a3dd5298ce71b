use deuterium_orm::field_state::FieldState;
use deuterium_orm::hydrate::{from_row, Row, SelectSpec};
use deuterium_orm::model::{
    Assignment, ConversionError, DefinitionError, ModelDef, NoHook, Record, RecordError, RecordHook,
};
use deuterium_orm::value::{ColumnValue, FieldDef, FieldType, Value};

const DARK_SIDE: i16 = 0;
const LIGHT_SIDE: i16 = 1;

fn field(name: &str, kind: FieldType) -> FieldDef {
    FieldDef { name: name.to_string(), kind, nullable: false }
}

fn jedi_fields() -> Vec<FieldDef> {
    vec![
        field("id", FieldType::Int),
        field("name", FieldType::Text),
        field("force_level", FieldType::Int),
        field("side", FieldType::SmallInt),
        field("created_at", FieldType::Timestamp),
        field("updated_at", FieldType::Timestamp),
    ]
}

fn jedi() -> ModelDef<NoHook> {
    ModelDef::new("jedi".to_string(), jedi_fields(), &vec!["id".to_string()], vec![], vec![])
        .unwrap()
}

fn col(name: &str, value: Value) -> ColumnValue {
    ColumnValue { column: name.to_string(), value }
}

fn anakin_row() -> Row {
    Row {
        columns: vec![
            col("id", Value::Int(7)),
            col("name", Value::Text("Anakin Skywalker".to_string())),
            col("force_level", Value::Int(100)),
            col("side", Value::SmallInt(DARK_SIDE)),
            col("created_at", Value::Timestamp(1_000, 0)),
            col("updated_at", Value::Timestamp(2_000, 0)),
        ],
    }
}

fn text(v: &Value) -> &str {
    match v {
        Value::Text(s) => s.as_str(),
        other => panic!("not text: {:?}", other),
    }
}

fn columns(cs: &[ColumnValue]) -> Vec<&str> {
    cs.iter().map(|c| c.column.as_str()).collect()
}

#[test]
fn select() {
    let model = jedi();
    let anakin = from_row(&model, &SelectSpec::All, &anakin_row()).unwrap();
    let force = model.field_index("force_level").unwrap();
    let side = model.field_index("side").unwrap();
    let name = model.field_index("name").unwrap();
    assert_eq!(text(anakin.get(name).unwrap()), "Anakin Skywalker");
    assert!(matches!(anakin.get(force), Ok(Value::Int(100))));
    assert!(matches!(anakin.get(side), Ok(Value::SmallInt(DARK_SIDE))));
}

#[test]
fn insert() {
    let model = stamped_jedi();
    let mut jedi = Record::empty(&model);
    jedi.set(1, Value::Text("Pants Olmos".to_string()));
    jedi.set(2, Value::Int(10));
    jedi.set(3, Value::SmallInt(DARK_SIDE));
    let stmt = jedi.build_insert();
    assert_eq!(stmt.table, "jedi");
    assert_eq!(columns(&stmt.columns), vec!["name", "force_level", "side", "created_at", "updated_at"]);
    assert_eq!(text(&stmt.columns[0].value), "Pants Olmos");
    assert!(matches!(stmt.columns[1].value, Value::Int(10)));
    assert!(matches!(stmt.columns[2].value, Value::SmallInt(DARK_SIDE)));
    assert!(!jedi.changed());
    assert_eq!(text(jedi.get(1).unwrap()), "Pants Olmos");
}

#[test]
fn update() {
    let model = stamped_jedi();
    let mut anakin = from_row(&model, &SelectSpec::All, &anakin_row()).unwrap();
    assert!(matches!(anakin.get(3), Ok(Value::SmallInt(DARK_SIDE))));
    anakin.set(3, Value::SmallInt(LIGHT_SIDE));
    let stmt = anakin.build_update().unwrap();
    assert_eq!(columns(&stmt.assignments), vec!["side", "updated_at"]);
    assert!(matches!(stmt.assignments[0].value, Value::SmallInt(LIGHT_SIDE)));
    assert_eq!(columns(&stmt.filter), vec!["id"]);
    assert!(matches!(stmt.filter[0].value, Value::Int(7)));
}

#[test]
fn delete() {
    let model = jedi();
    let anakin = from_row(&model, &SelectSpec::All, &anakin_row()).unwrap();
    assert_eq!(text(anakin.get(1).unwrap()), "Anakin Skywalker");
    let stmt = anakin.build_delete().unwrap();
    assert_eq!(stmt.table, "jedi");
    assert_eq!(columns(&stmt.filter), vec!["id"]);
    assert!(matches!(stmt.filter[0].value, Value::Int(7)));
}

#[test]
fn empty_record_reads_fail_with_field_not_loaded() {
    let model = jedi();
    let r = Record::empty(&model);
    match r.get(1) {
        Err(RecordError::FieldNotLoaded(name)) => assert_eq!(name, "name"),
        other => panic!("unexpected {:?}", other),
    }
    assert!(!r.changed());
    assert!(matches!(r.state(0), FieldState::Unloaded));
}

#[test]
fn set_marks_field_dirty_and_record_changed() {
    let model = jedi();
    let mut r = Record::empty(&model);
    r.set(2, Value::Int(55));
    assert!(r.changed());
    assert!(matches!(r.state(2), FieldState::Dirty(Value::Int(55))));
    assert!(matches!(r.get(2), Ok(Value::Int(55))));
}

#[test]
fn insert_carries_exactly_the_set_field() {
    let model = jedi();
    let mut r = from_row(&model, &SelectSpec::All, &anakin_row()).unwrap();
    r.set(2, Value::Int(3));
    let stmt = r.build_insert();
    assert_eq!(columns(&stmt.columns), vec!["force_level"]);
    assert!(matches!(stmt.columns[0].value, Value::Int(3)));
    assert!(matches!(r.state(2), FieldState::Loaded(Value::Int(3))));
}

#[test]
fn insert_of_untouched_record_has_no_columns() {
    let model = jedi();
    let mut r = Record::empty(&model);
    let stmt = r.build_insert();
    assert!(stmt.columns.is_empty());
}

#[test]
fn update_right_after_insert_sets_nothing() {
    let model = jedi();
    let mut r = Record::empty(&model);
    r.set(0, Value::Int(1));
    r.set(1, Value::Text("Yoda".to_string()));
    let ins = r.build_insert();
    assert_eq!(columns(&ins.columns), vec!["id", "name"]);
    let upd = r.build_update().unwrap();
    assert!(upd.assignments.is_empty());
    assert_eq!(columns(&upd.filter), vec!["id"]);
    assert!(matches!(upd.filter[0].value, Value::Int(1)));
}

#[test]
fn update_without_primary_key_fails() {
    let model = jedi();
    let mut r = Record::empty(&model);
    r.set(1, Value::Text("Rey".to_string()));
    assert!(matches!(r.build_update(), Err(RecordError::MissingPrimaryKey)));
    assert!(r.changed());
    assert!(matches!(r.state(1), FieldState::Dirty(_)));
}

#[test]
fn delete_without_primary_key_fails() {
    let model = jedi();
    let r = Record::empty(&model);
    assert!(matches!(r.build_delete(), Err(RecordError::MissingPrimaryKey)));
    assert!(matches!(r.lookup_predicate(), Err(RecordError::MissingPrimaryKey)));
}

#[test]
fn lookup_predicate_follows_key_declaration_order() {
    let fields = vec![field("a", FieldType::Int), field("b", FieldType::Text), field("c", FieldType::Int)];
    let model: ModelDef<NoHook> = ModelDef::new(
        "pairs".to_string(),
        fields,
        &vec!["c".to_string(), "a".to_string()],
        vec![],
        vec![],
    )
    .unwrap();
    let mut r = Record::empty(&model);
    r.set(0, Value::Int(1));
    r.set(2, Value::Int(3));
    let pred = r.lookup_predicate().unwrap();
    assert_eq!(columns(&pred), vec!["c", "a"]);
    assert!(matches!(pred[0].value, Value::Int(3)));
    assert!(matches!(pred[1].value, Value::Int(1)));
}

#[test]
fn model_needs_a_primary_key() {
    let r: Result<ModelDef<NoHook>, _> = ModelDef::new("t".to_string(), jedi_fields(), &vec![], vec![], vec![]);
    assert!(matches!(r, Err(DefinitionError::NoPrimaryKey)));
}

#[test]
fn model_rejects_unknown_primary_key_field() {
    let r: Result<ModelDef<NoHook>, _> =
        ModelDef::new("t".to_string(), jedi_fields(), &vec!["uuid".to_string()], vec![], vec![]);
    match r {
        Err(DefinitionError::UnknownPrimaryKeyField(n)) => assert_eq!(n, "uuid"),
        other => panic!("unexpected {:?}", other.err()),
    }
}

#[test]
fn model_rejects_duplicate_field_names() {
    let fields = vec![field("id", FieldType::Int), field("id", FieldType::Text)];
    let r: Result<ModelDef<NoHook>, _> = ModelDef::new("t".to_string(), fields, &vec!["id".to_string()], vec![], vec![]);
    match r {
        Err(DefinitionError::DuplicateField(n)) => assert_eq!(n, "id"),
        other => panic!("unexpected {:?}", other.err()),
    }
}

#[test]
fn field_index_finds_declared_names_only() {
    let model = jedi();
    assert_eq!(model.field_index("side"), Some(3));
    assert_eq!(model.field_index("lightsaber"), None);
    assert_eq!(model.table(), "jedi");
    assert_eq!(model.fields().len(), 6);
}

enum Stamp {
    Created,
    Updated,
}

impl RecordHook for Stamp {
    fn call(&self, _record: &Record<'_, Self>) -> Vec<Assignment> {
        match self {
            Stamp::Created => vec![Assignment { field: 4, value: Value::Timestamp(111, 0) }],
            Stamp::Updated => vec![Assignment { field: 5, value: Value::Timestamp(222, 0) }],
        }
    }
}

fn stamped_jedi() -> ModelDef<Stamp> {
    ModelDef::new(
        "jedi".to_string(),
        jedi_fields(),
        &vec!["id".to_string()],
        vec![Stamp::Created],
        vec![Stamp::Updated],
    )
    .unwrap()
}

struct Careless;

impl RecordHook for Careless {
    fn call(&self, _record: &Record<'_, Self>) -> Vec<Assignment> {
        vec![
            Assignment { field: 99, value: Value::Int(1) },
            Assignment { field: 1, value: Value::Int(1) },
            Assignment { field: 2, value: Value::Int(7) },
        ]
    }
}

#[test]
fn hook_assignments_that_do_not_fit_are_skipped() {
    let model: ModelDef<Careless> =
        ModelDef::new("jedi".to_string(), jedi_fields(), &vec!["id".to_string()], vec![Careless], vec![]).unwrap();
    let mut r = Record::empty(&model);
    let ins = r.build_insert();
    assert_eq!(columns(&ins.columns), vec!["force_level"]);
    assert!(matches!(ins.columns[0].value, Value::Int(7)));
}

#[test]
fn hooks_run_before_insert_and_update() {
    let model = stamped_jedi();
    let mut r = Record::empty(&model);
    r.set(0, Value::Int(9));
    let ins = r.build_insert();
    assert_eq!(columns(&ins.columns), vec!["id", "created_at", "updated_at"]);
    assert!(matches!(ins.columns[1].value, Value::Timestamp(111, 0)));
    let upd = r.build_update().unwrap();
    assert_eq!(columns(&upd.assignments), vec!["updated_at"]);
    assert!(matches!(upd.assignments[0].value, Value::Timestamp(222, 0)));
}

#[test]
fn hydrate_all_loads_every_field() {
    let model = jedi();
    let r = from_row(&model, &SelectSpec::All, &anakin_row()).unwrap();
    for i in 0..6 {
        assert!(matches!(r.state(i), FieldState::Loaded(_)));
        assert!(r.get(i).is_ok());
    }
    assert!(!r.changed());
}

#[test]
fn hydrate_all_fails_on_wrong_type() {
    let model = jedi();
    let mut row = anakin_row();
    row.columns[2] = col("force_level", Value::Text("over nine thousand".to_string()));
    match from_row(&model, &SelectSpec::All, &row) {
        Err(RecordError::TypeMismatch(name, ConversionError::WrongType)) => assert_eq!(name, "force_level"),
        other => panic!("unexpected {:?}", other.err()),
    }
}

#[test]
fn hydrate_all_fails_on_missing_column() {
    let model = jedi();
    let mut row = anakin_row();
    row.columns.remove(5);
    match from_row(&model, &SelectSpec::All, &row) {
        Err(RecordError::TypeMismatch(name, ConversionError::MissingColumn)) => assert_eq!(name, "updated_at"),
        other => panic!("unexpected {:?}", other.err()),
    }
}

#[test]
fn hydrate_only_loads_the_named_field() {
    let model = jedi();
    let only = SelectSpec::Only(vec!["name".to_string()]);
    let r = from_row(&model, &only, &anakin_row()).unwrap();
    assert_eq!(text(r.get(1).unwrap()), "Anakin Skywalker");
    for i in [0usize, 2, 3, 4, 5] {
        assert!(matches!(r.get(i), Err(RecordError::FieldNotLoaded(_))));
    }
}

#[test]
fn hydrate_only_leaves_unreadable_field_unloaded() {
    let model = jedi();
    let mut row = anakin_row();
    row.columns[0] = col("id", Value::Null);
    let only = SelectSpec::Only(vec!["id".to_string(), "side".to_string(), "ghost".to_string()]);
    let r = from_row(&model, &only, &row).unwrap();
    assert!(matches!(r.state(0), FieldState::Unloaded));
    assert!(matches!(r.get(3), Ok(Value::SmallInt(DARK_SIDE))));
}

#[test]
fn nullable_field_accepts_null() {
    let fields = vec![field("id", FieldType::Int), FieldDef { name: "note".to_string(), kind: FieldType::Text, nullable: true }];
    let model: ModelDef<NoHook> = ModelDef::new("notes".to_string(), fields, &vec!["id".to_string()], vec![], vec![]).unwrap();
    let row = Row { columns: vec![col("note", Value::Null), col("id", Value::Int(2))] };
    let r = from_row(&model, &SelectSpec::All, &row).unwrap();
    assert!(matches!(r.get(1), Ok(Value::Null)));
    assert!(model.fields()[1].accepts(&Value::Null));
    assert!(!model.fields()[0].accepts(&Value::Null));
}
