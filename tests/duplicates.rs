use ts_type_dupes::analyzer::{analyze, count_findings, summarize, Classification, DuplicateFinding};
use ts_type_dupes::fingerprint::{fingerprint, same_fingerprint, Token};
use ts_type_dupes::registry::{register_file, Registry};
use ts_type_dupes::type_checker::{extract_types, FoundType, ModuleItem, SourceModule, TypeAliasDecl};
use ts_type_dupes::paths::{default_excluded_segments, is_candidate_path};
use ts_type_dupes::type_node::{TypeKind, TypeNode, FLAG_OPTIONAL};

fn leaf(kind: TypeKind, text: &str) -> TypeNode {
    TypeNode { kind, flags: 0, text: text.to_string(), children: Vec::new() }
}

fn node(kind: TypeKind, text: &str, children: Vec<TypeNode>) -> TypeNode {
    TypeNode { kind, flags: 0, text: text.to_string(), children }
}

fn kw(k: &str) -> TypeNode {
    leaf(TypeKind::Keyword, k)
}

fn prop(key: &str, ty: TypeNode) -> TypeNode {
    node(TypeKind::Property, key, vec![ty])
}

/// `{ k1: t1; k2: t2; ... }`
fn object(members: Vec<(&str, &str)>) -> TypeNode {
    node(TypeKind::Object, "", members.into_iter().map(|(k, t)| prop(k, kw(t))).collect())
}

fn tuple(elems: Vec<&str>) -> TypeNode {
    node(TypeKind::Tuple, "", elems.into_iter().map(kw).collect())
}

fn alias(name: &str, line: usize, ty: TypeNode) -> ModuleItem {
    ModuleItem::TypeAlias(TypeAliasDecl {
        name: name.to_string(),
        exported: false,
        declare: false,
        line_index: Some(line),
        type_ann: ty,
    })
}

fn module(items: Vec<ModuleItem>) -> SourceModule {
    SourceModule { body: items }
}

fn run(files: Vec<(&str, Option<SourceModule>)>) -> (Registry, Vec<DuplicateFinding>) {
    let mut reg = Registry::new();
    for (name, parsed) in files.iter() {
        register_file(&mut reg, parsed.as_ref(), name);
    }
    let findings = analyze(&reg);
    (reg, findings)
}

fn user_full() -> TypeNode {
    object(vec![("id", "string"), ("name", "string")])
}

#[test]
fn identical_declarations_in_two_files_give_one_identical_shape() {
    let (reg, findings) = run(vec![
        ("a.ts", Some(module(vec![alias("User", 0, user_full())]))),
        ("b.ts", Some(module(vec![alias("User", 4, user_full())]))),
    ]);
    assert_eq!(findings.len(), 1);
    assert_eq!(
        findings[0],
        DuplicateFinding { group: 0, first: 0, second: 1, classification: Classification::IdenticalShape }
    );
    let occ = reg.group(0);
    assert_eq!(occ[0].filename, "a.ts");
    assert_eq!(occ[1].filename, "b.ts");
    assert_eq!(occ[0].line, 1);
    assert_eq!(occ[1].line, 5);
}

#[test]
fn different_member_types_give_a_name_collision() {
    let (_, findings) = run(vec![
        ("a.ts", Some(module(vec![alias("User", 0, object(vec![("id", "string")]))]))),
        ("b.ts", Some(module(vec![alias("User", 0, object(vec![("id", "number")]))]))),
    ]);
    assert_eq!(findings.len(), 1);
    assert_eq!(findings[0].classification, Classification::NameCollision);
}

#[test]
fn two_alike_and_one_different_give_three_findings() {
    let (reg, findings) = run(vec![
        ("a.ts", Some(module(vec![alias("User", 0, user_full())]))),
        ("b.ts", Some(module(vec![alias("User", 0, user_full())]))),
        ("c.ts", Some(module(vec![alias("User", 0, object(vec![("id", "number")]))]))),
    ]);
    assert_eq!(
        findings,
        vec![
            DuplicateFinding { group: 0, first: 0, second: 1, classification: Classification::IdenticalShape },
            DuplicateFinding { group: 0, first: 0, second: 2, classification: Classification::NameCollision },
            DuplicateFinding { group: 0, first: 1, second: 2, classification: Classification::NameCollision },
        ]
    );
    let s = summarize(&reg, &findings);
    assert_eq!(s.unique_names, 1);
    assert_eq!(s.identical_shapes, 1);
    assert_eq!(s.name_collisions, 2);
}

#[test]
fn a_file_that_did_not_parse_contributes_nothing() {
    let mut reg = Registry::new();
    assert!(register_file(&mut reg, Some(&module(vec![alias("User", 0, user_full())])), "a.ts"));
    assert!(!register_file(&mut reg, None, "broken.ts"));
    assert!(register_file(&mut reg, Some(&module(vec![alias("User", 2, user_full())])), "c.ts"));
    let findings = analyze(&reg);
    assert_eq!(reg.name_count(), 1);
    assert_eq!(reg.group(0).len(), 2);
    assert_eq!(reg.group(0)[1].filename, "c.ts");
    assert_eq!(findings.len(), 1);
    assert_eq!(findings[0].classification, Classification::IdenticalShape);
}

#[test]
fn a_name_declared_once_gives_no_finding() {
    let (reg, findings) = run(vec![
        ("a.ts", Some(module(vec![alias("User", 0, user_full()), alias("Id", 1, kw("string"))]))),
        ("b.ts", Some(module(vec![alias("Id", 0, kw("string"))]))),
    ]);
    assert_eq!(reg.name_count(), 2);
    assert_eq!(findings.len(), 1);
    assert_eq!(findings[0].group, 1);
    assert_eq!(reg.name(1), "Id");
    assert_eq!(reg.names_with_duplicates(), vec![1]);
}

#[test]
fn tuple_element_order_matters() {
    let (_, findings) = run(vec![
        ("a.ts", Some(module(vec![alias("Pair", 0, tuple(vec!["string", "number"]))]))),
        ("b.ts", Some(module(vec![alias("Pair", 0, tuple(vec!["number", "string"]))]))),
    ]);
    assert_eq!(findings.len(), 1);
    assert_eq!(findings[0].classification, Classification::NameCollision);
    assert!(!same_fingerprint(
        &fingerprint(&tuple(vec!["string", "number"])),
        &fingerprint(&tuple(vec!["number", "string"]))
    ));
}

#[test]
fn fingerprint_is_deterministic() {
    let t = node(TypeKind::Union, "", vec![kw("string"), user_full()]);
    assert_eq!(fingerprint(&t), fingerprint(&t));
}

#[test]
fn fingerprint_ignores_where_a_declaration_stands() {
    let a = FoundType::from_ast(
        &TypeAliasDecl { name: "U".to_string(), exported: false, declare: false, line_index: Some(3), type_ann: user_full() },
        "x/a.ts",
    );
    let b = FoundType::from_ast(
        &TypeAliasDecl { name: "U".to_string(), exported: true, declare: false, line_index: Some(90), type_ann: user_full() },
        "y/b.ts",
    );
    assert!(same_fingerprint(&a.body, &b.body));
    assert_eq!(a.body, b.body);
}

#[test]
fn fingerprint_has_the_exact_encoding() {
    let t = node(TypeKind::Array, "", vec![leaf(TypeKind::Keyword, "id")]);
    assert_eq!(
        fingerprint(&t),
        vec![
            Token::Node(TypeKind::Array, 0),
            Token::Node(TypeKind::Keyword, 0),
            Token::Text('i' as u32),
            Token::Text('d' as u32),
            Token::End,
            Token::End,
        ]
    );
}

#[test]
fn fingerprint_discriminates_arms_members_and_flags() {
    let u1 = node(TypeKind::Union, "", vec![kw("string"), kw("number")]);
    let u2 = node(TypeKind::Union, "", vec![kw("number"), kw("string")]);
    let i1 = node(TypeKind::Intersection, "", vec![kw("string"), kw("number")]);
    assert_ne!(fingerprint(&u1), fingerprint(&u2));
    assert_ne!(fingerprint(&u1), fingerprint(&i1));
    let o1 = object(vec![("id", "string"), ("name", "string")]);
    let o2 = object(vec![("name", "string"), ("id", "string")]);
    assert_ne!(fingerprint(&o1), fingerprint(&o2));
    let mut p = prop("id", kw("string"));
    let q = prop("id", kw("string"));
    p.flags = FLAG_OPTIONAL;
    assert_ne!(fingerprint(&p), fingerprint(&q));
    // a name split differently between text and children
    let r1 = node(TypeKind::Reference, "ab", vec![]);
    let r2 = node(TypeKind::Reference, "a", vec![leaf(TypeKind::Keyword, "b")]);
    assert_ne!(fingerprint(&r1), fingerprint(&r2));
    // nesting differs
    let n1 = node(TypeKind::Tuple, "", vec![node(TypeKind::Tuple, "", vec![kw("x")]), kw("y")]);
    let n2 = node(TypeKind::Tuple, "", vec![node(TypeKind::Tuple, "", vec![kw("x"), kw("y")])]);
    assert_ne!(fingerprint(&n1), fingerprint(&n2));
}

#[test]
fn k_occurrences_give_every_pair_once() {
    let files: Vec<(String, Option<SourceModule>)> = (0..5)
        .map(|i| (format!("f{}.ts", i), Some(module(vec![alias("T", 0, kw(if i % 2 == 0 { "string" } else { "number" }))]))))
        .collect();
    let mut reg = Registry::new();
    for (name, parsed) in files.iter() {
        register_file(&mut reg, parsed.as_ref(), name);
    }
    let findings = analyze(&reg);
    assert_eq!(findings.len(), 10);
    let mut pairs: Vec<(usize, usize)> = findings.iter().map(|f| (f.first, f.second)).collect();
    let expected: Vec<(usize, usize)> =
        vec![(0, 1), (0, 2), (0, 3), (0, 4), (1, 2), (1, 3), (1, 4), (2, 3), (2, 4), (3, 4)];
    assert_eq!(pairs, expected);
    pairs.dedup();
    assert_eq!(pairs.len(), 10);
    for f in findings.iter() {
        let same = f.first % 2 == f.second % 2;
        let expect = if same { Classification::IdenticalShape } else { Classification::NameCollision };
        assert_eq!(f.classification, expect);
    }
    let (identical, collisions) = count_findings(&findings);
    assert_eq!(identical, 4);
    assert_eq!(collisions, 6);
    assert_eq!(identical + collisions, findings.len());
}

fn resolved(reg: &Registry, findings: &[DuplicateFinding]) -> Vec<(String, String, String, Classification)> {
    let mut out: Vec<(String, String, String, Classification)> = findings
        .iter()
        .map(|f| {
            let occ = reg.group(f.group);
            let a = occ[f.first].filename.clone();
            let b = occ[f.second].filename.clone();
            let (lo, hi) = if a <= b { (a, b) } else { (b, a) };
            (reg.name(f.group).clone(), lo, hi, f.classification)
        })
        .collect();
    out.sort_by(|x, y| (x.0.clone(), x.1.clone(), x.2.clone()).cmp(&(y.0.clone(), y.1.clone(), y.2.clone())));
    out
}

fn corpus() -> Vec<(&'static str, Option<SourceModule>)> {
    vec![
        ("a.ts", Some(module(vec![alias("User", 0, user_full()), alias("Id", 1, kw("string"))]))),
        ("b.ts", Some(module(vec![alias("Id", 0, kw("number")), alias("User", 1, user_full())]))),
        ("c.ts", Some(module(vec![alias("User", 0, object(vec![("id", "number")]))]))),
    ]
}

#[test]
fn traversal_order_does_not_change_the_findings() {
    let (reg1, f1) = run(corpus());
    let mut reversed = corpus();
    reversed.reverse();
    let (reg2, f2) = run(reversed);
    assert_eq!(f1.len(), 4);
    assert_eq!(resolved(&reg1, &f1), resolved(&reg2, &f2));
}

#[test]
fn extraction_keeps_source_order_and_skips_other_items() {
    let m = module(vec![
        alias("A", 0, kw("string")),
        ModuleItem::Other,
        ModuleItem::TypeAlias(TypeAliasDecl {
            name: "B".to_string(),
            exported: false,
            declare: true,
            line_index: None,
            type_ann: kw("number"),
        }),
        ModuleItem::TypeAlias(TypeAliasDecl {
            name: "C".to_string(),
            exported: true,
            declare: false,
            line_index: Some(usize::MAX),
            type_ann: kw("number"),
        }),
    ]);
    let mut list: Vec<FoundType> = Vec::new();
    extract_types(&m, "m.ts", &mut list);
    assert_eq!(list.len(), 3);
    assert_eq!(list[0].name, "A");
    assert_eq!(list[0].line, 1);
    assert!(!list[0].is_exported);
    assert_eq!(list[1].name, "B");
    assert_eq!(list[1].line, 0);
    assert!(list[1].is_exported);
    assert_eq!(list[2].name, "C");
    assert_eq!(list[2].line, 0);
    assert!(list[2].is_exported);
    assert_eq!(list[2].filename, "m.ts");
}

#[test]
fn empty_corpus_gives_nothing() {
    let (reg, findings) = run(vec![("empty.ts", Some(module(vec![])))]);
    assert_eq!(reg.name_count(), 0);
    assert!(findings.is_empty());
    let s = summarize(&reg, &findings);
    assert_eq!((s.unique_names, s.identical_shapes, s.name_collisions), (0, 0, 0));
}

#[test]
fn candidate_paths_need_a_typescript_extension() {
    let excluded = default_excluded_segments();
    assert!(is_candidate_path("src/a.ts", &excluded));
    assert!(is_candidate_path("src/view.tsx", &excluded));
    assert!(!is_candidate_path("src/a.js", &excluded));
    assert!(!is_candidate_path("src/a.tsv", &excluded));
    assert!(!is_candidate_path("src/.ts", &excluded));
    assert!(!is_candidate_path("ts", &excluded));
}

#[test]
fn excluded_segments_are_skipped_and_only_whole_segments_count() {
    let excluded = default_excluded_segments();
    assert_eq!(excluded.len(), 10);
    assert_eq!(excluded[0], "node_modules");
    assert!(!is_candidate_path("pkg/node_modules/lib/index.ts", &excluded));
    assert!(!is_candidate_path("dist/a.ts", &excluded));
    assert!(!is_candidate_path("repo/.git/hooks/x.ts", &excluded));
    assert!(!is_candidate_path("a\\build\\b.ts", &excluded));
    // none excluded: every condition must hold, not just one of them
    assert!(is_candidate_path("src/builder/a.ts", &excluded));
    assert!(is_candidate_path("src/distance.ts", &excluded));
    assert!(is_candidate_path("x.ts", &Vec::new()));
    let custom = vec!["gen".to_string()];
    assert!(!is_candidate_path("a/gen/b.ts", &custom));
    assert!(is_candidate_path("a/generated/b.ts", &custom));
}
