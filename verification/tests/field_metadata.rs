use webgraph_core::field_metadata::{
    comes_before, fields_metadata, is_field_stored, join_runs, merge_field_meta_data, FieldMetadata,
};
use webgraph_core::text::{has_char, join3, replace_char};
use webgraph_core::index::index_segment;
use webgraph_core::doc_address::SegmentId;
use webgraph_core::edge::{Edge, RelFlags};
use webgraph_core::index_schema::{FieldEntry, Schema, SchemaBuilder, Type};
use webgraph_core::node::Node;

#[test]
fn test_merge_field_meta_data_same() {
    let schema = SchemaBuilder::new().build();
    let field_metadata1 = FieldMetadata {
        field_name: "a".to_string(),
        typ: Type::Str,
        indexed: true,
        stored: false,
        columnar: true,
    };
    let field_metadata2 = FieldMetadata {
        field_name: "a".to_string(),
        typ: Type::Str,
        indexed: true,
        stored: false,
        columnar: true,
    };
    let res = merge_field_meta_data(
        vec![vec![field_metadata1.clone()], vec![field_metadata2]],
        &schema,
    );
    assert_eq!(res, vec![field_metadata1]);
}

#[test]
fn test_merge_field_meta_data_different() {
    let schema = SchemaBuilder::new().build();
    let field_metadata1 = FieldMetadata {
        field_name: "a".to_string(),
        typ: Type::Str,
        indexed: false,
        stored: false,
        columnar: true,
    };
    let field_metadata2 = FieldMetadata {
        field_name: "b".to_string(),
        typ: Type::Str,
        indexed: false,
        stored: false,
        columnar: true,
    };
    let field_metadata3 = FieldMetadata {
        field_name: "a".to_string(),
        typ: Type::Str,
        indexed: true,
        stored: false,
        columnar: false,
    };
    let res = merge_field_meta_data(
        vec![
            vec![field_metadata1.clone(), field_metadata2.clone()],
            vec![field_metadata3],
        ],
        &schema,
    );
    let field_metadata_expected1 = FieldMetadata {
        field_name: "a".to_string(),
        typ: Type::Str,
        indexed: true,
        stored: false,
        columnar: true,
    };
    assert_eq!(res, vec![field_metadata_expected1, field_metadata2.clone()]);
}

#[test]
fn test_merge_field_meta_data_merge() {
    let get_meta_data = |name: &str, typ: Type| FieldMetadata {
        field_name: name.to_string(),
        typ,
        indexed: false,
        stored: false,
        columnar: true,
    };
    let schema = SchemaBuilder::new().build();
    let mut metas = vec![get_meta_data("d", Type::Str), get_meta_data("e", Type::U64)];
    metas.sort();
    let res = merge_field_meta_data(vec![vec![get_meta_data("e", Type::Str)], metas], &schema);
    assert_eq!(
        res,
        vec![
            get_meta_data("d", Type::Str),
            get_meta_data("e", Type::Str),
            get_meta_data("e", Type::U64),
        ]
    );
}

#[test]
fn test_merge_field_meta_data_bitxor() {
    let field_metadata1 = FieldMetadata {
        field_name: "a".to_string(),
        typ: Type::Str,
        indexed: false,
        stored: false,
        columnar: true,
    };
    let field_metadata2 = FieldMetadata {
        field_name: "a".to_string(),
        typ: Type::Str,
        indexed: true,
        stored: false,
        columnar: false,
    };
    let field_metadata_expected = FieldMetadata {
        field_name: "a".to_string(),
        typ: Type::Str,
        indexed: true,
        stored: false,
        columnar: true,
    };
    let mut res1 = field_metadata1.clone();
    res1.bitor_assign(field_metadata2.clone());
    let mut res2 = field_metadata2.clone();
    res2.bitor_assign(field_metadata1);
    assert_eq!(res1, field_metadata_expected);
    assert_eq!(res2, field_metadata_expected);
}

#[test]
fn test_num_alive() {
    let edges: Vec<Edge> = ["tantivy", "horse", "jockey", "cap"]
        .iter()
        .map(|name| Edge {
            from: Node::from(name),
            to: Node::from("name"),
            rel_flags: RelFlags::from(0),
            label: name.to_string(),
            sort_score: 0,
        })
        .collect();
    let (segment_reader, _) = index_segment(SegmentId(0), edges);
    assert_eq!(4, segment_reader.num_docs());
    assert_eq!(4, segment_reader.max_doc());
    assert_eq!(segment_reader.doc_ids(), vec![0, 1, 2, 3]);
    assert_eq!(segment_reader.segment_id(), SegmentId(0));
    assert_eq!(segment_reader.get(1).unwrap().label, "horse");
    assert!(segment_reader.get(4).is_none());
}

fn meta(name: &str, typ: Type, indexed: bool, stored: bool, columnar: bool) -> FieldMetadata {
    FieldMetadata { field_name: name.to_string(), typ, indexed, stored, columnar }
}

#[test]
fn order_of_field_metadata_is_that_of_its_fields() {
    let mut list = vec![
        meta("b", Type::Str, false, false, false),
        meta("ab", Type::U64, true, false, false),
        meta("a", Type::Json, false, true, true),
        meta("a", Type::Str, true, true, true),
        meta("a", Type::Str, false, true, true),
        meta("a", Type::Str, false, false, true),
        meta("a", Type::Str, false, false, false),
        meta("", Type::IpAddr, true, true, true),
        meta("é", Type::Str, false, false, false),
    ];
    for a in list.iter() {
        for b in list.iter() {
            assert_eq!(comes_before(a, b), a < b, "{a:?} {b:?}");
        }
    }
    list.sort();
    assert_eq!(list[0].field_name, "");
    assert_eq!(list[1], meta("a", Type::Str, false, false, false));
    assert_eq!(list[8].field_name, "é");
}

#[test]
fn merged_metadata_is_stored_where_the_schema_says_so() {
    let mut builder = SchemaBuilder::new();
    assert_eq!(builder.add_field(FieldEntry::new("title", Type::Str, true, true, false)), 0);
    assert_eq!(builder.add_field(FieldEntry::new("attrs", Type::Json, true, true, false)), 1);
    assert_eq!(builder.add_field(FieldEntry::new("attrs.raw", Type::Json, true, false, false)), 2);
    assert_eq!(builder.add_field(FieldEntry::new("score", Type::U64, false, false, true)), 3);
    let schema: Schema = builder.build();

    assert_eq!(schema.get_field("title"), Some(0));
    assert_eq!(schema.get_field("nothing"), None);
    assert_eq!(schema.get_field_name(3), "score");
    assert_eq!(schema.find_field("title"), Some((0, 5)));
    assert_eq!(schema.find_field("attrs.color"), Some((1, 6)));
    assert_eq!(schema.find_field("attrs.raw.x.y"), Some((2, 10)));
    assert_eq!(schema.find_field("attrs\\.color"), None);
    assert_eq!(schema.find_field("titles"), None);
    assert_eq!(schema.find_field(".title"), None);

    assert!(is_field_stored("title", &schema));
    assert!(is_field_stored("attrs.color", &schema));
    assert!(!is_field_stored("attrs.raw.x", &schema));
    assert!(!is_field_stored("score", &schema));
    assert!(!is_field_stored("unknown", &schema));

    let res = merge_field_meta_data(
        vec![
            vec![meta("attrs.color", Type::Str, true, false, false), meta("title", Type::Str, true, false, false)],
            vec![meta("attrs.color", Type::Str, false, false, true), meta("score", Type::U64, false, true, true)],
            vec![],
        ],
        &schema,
    );
    assert_eq!(
        res,
        vec![
            meta("attrs.color", Type::Str, true, true, true),
            meta("score", Type::U64, false, false, true),
            meta("title", Type::Str, true, true, false),
        ]
    );
    assert!(merge_field_meta_data(vec![], &schema).is_empty());
}

#[test]
fn the_fields_of_a_segment() {
    let mut builder = SchemaBuilder::new();
    builder.add_field(FieldEntry::new("title", Type::Str, true, true, false));
    builder.add_field(FieldEntry::new("attrs", Type::Json, true, true, false));
    builder.add_field(FieldEntry::new("meta", Type::Json, true, false, false).set_expand_dots(true));
    builder.add_field(FieldEntry::new("score", Type::U64, false, false, true));
    builder.add_field(FieldEntry::new("hidden", Type::Json, false, false, false));
    let schema = builder.build();

    let path = |p: &str, typ: Type| (p.to_string(), typ);
    let encoded = vec![
        vec![path("never read", Type::Str)],
        vec![path("color", Type::Str), path("size.cm", Type::U64), path("a\u{1}b", Type::Str)],
        vec![path("x.y", Type::Bool)],
        vec![],
    ];
    let columns = vec![
        path("score", Type::U64),
        path("attrs\u{1}size.cm", Type::U64),
        path("attrs\u{1}color", Type::Str),
        path("meta\u{1}x\u{1}y", Type::Bool),
        path("attrs\u{1}size\u{1}cm", Type::I64),
    ];
    let found = fields_metadata(&schema, &encoded, &columns);
    assert_eq!(
        found,
        vec![
            meta("attrs.a.b", Type::Str, true, true, false),
            meta("attrs.color", Type::Str, true, true, true),
            meta("attrs.size\\.cm", Type::U64, true, true, true),
            meta("attrs.size\\.cm", Type::I64, false, true, true),
            meta("meta.x.y", Type::Bool, true, false, true),
            meta("score", Type::U64, false, false, true),
            meta("title", Type::Str, true, true, false),
        ]
    );
    assert!(fields_metadata(&SchemaBuilder::new().build(), &vec![], &vec![]).is_empty());
    let only_columns = fields_metadata(&SchemaBuilder::new().build(), &vec![], &columns);
    assert_eq!(only_columns.len(), 5);
    assert_eq!(only_columns[0], meta("attrs.color", Type::Str, false, false, true));
    assert_eq!(only_columns[1], meta("attrs.size.cm", Type::U64, false, false, true));
    assert!(schema.get_field_entry(2).is_expand_dots_enabled());
    assert!(!schema.get_field_entry(3).is_indexed());
}

#[test]
fn runs_of_one_field_are_joined() {
    let schema = SchemaBuilder::new().build();
    let joined = join_runs(
        vec![
            meta("a", Type::Str, true, true, false),
            meta("a", Type::Str, false, false, true),
            meta("a", Type::U64, false, false, true),
            meta("b", Type::U64, false, false, false),
            meta("a", Type::U64, true, false, false),
            meta("a", Type::U64, false, false, true),
        ],
        &schema,
    );
    assert_eq!(
        joined,
        vec![
            meta("a", Type::Str, true, false, true),
            meta("a", Type::U64, false, false, true),
            meta("b", Type::U64, false, false, false),
            meta("a", Type::U64, true, false, true),
        ]
    );
    assert!(join_runs(vec![], &schema).is_empty());
}

#[test]
fn texts_are_searched_and_replaced_by_character() {
    assert!(has_char("a.b", '.'));
    assert!(!has_char("ab", '.'));
    assert!(!has_char("", '.'));
    assert!(has_char("grüße.", '.'));
    assert_eq!(replace_char("a.b.c", '.', "\\."), "a\\.b\\.c");
    assert_eq!(replace_char("a\u{1}b", '\u{1}', "."), "a.b");
    assert_eq!(replace_char("...", '.', ""), "");
    assert_eq!(replace_char("grüße", 'ü', "ue"), "grueße");
    assert_eq!(replace_char("", 'x', "y"), "");
    assert_eq!(join3("a", ".", "b"), "a.b");
    assert_eq!(join3("", "", ""), "");
}
