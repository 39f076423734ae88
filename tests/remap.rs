use std::collections::HashMap;

use local_remapper::scanner::{render_import, Capture};

use local_remapper::{
    base_name_of, numbered, ImportScanner, LocalRemapper, NameTable, RemapError, RemapRun,
    SourceEntry, IMPORT_PATTERN,
};

fn remapper(temp: &str) -> LocalRemapper {
    LocalRemapper::new(temp, HashMap::new(), HashMap::new())
}

fn entry(path: &str, content: &str, keys: &[&str]) -> SourceEntry {
    SourceEntry {
        path: path.to_string(),
        content: content.to_string(),
        canonical_path: path.to_string(),
        import_keys: keys.iter().map(|k| Some(k.to_string())).collect(),
    }
}

#[test]
fn bundle_without_collisions_is_copied() {
    let mut r = remapper("out");
    let sources = vec![
        entry("/p/A.sol", "contract A{}", &[]),
        entry("/p/B.sol", "import \"./A.sol\"; contract B{}", &["/p/A.sol"]),
    ];
    let plan = r.apply_local_remapping(&sources, &"/p/B.sol".to_string());
    assert_eq!(plan.error, None);
    assert_eq!(plan.files.len(), 2);
    assert_eq!(plan.files[0].dir, "/p/out");
    assert_eq!(plan.files[0].path, "/p/out/A.sol");
    assert_eq!(plan.files[0].content, "contract A{}");
    assert_eq!(plan.files[1].path, "/p/out/B.sol");
    assert_eq!(plan.files[1].content, "import \"./A.sol\"; contract B{}");
}

#[test]
fn identical_files_share_name() {
    let mut r = remapper("out");
    let a = r.check_and_rename_contract("/p/x/Token.sol", "contract T{}", false);
    let b = r.check_and_rename_contract("/p/y/Token.sol", "contract T{}", false);
    assert_eq!(a, Ok("Token".to_string()));
    assert_eq!(b, Ok("Token".to_string()));
}

#[test]
fn collisions_are_numbered_per_name() {
    let mut r = remapper("out");
    assert_eq!(r.check_and_rename_contract("/a/T.sol", "one", true), Ok("T".to_string()));
    assert_eq!(r.check_and_rename_contract("/b/T.sol", "two", false), Ok("T_1".to_string()));
    assert_eq!(r.check_and_rename_contract("/a/U.sol", "one", false), Ok("U".to_string()));
    assert_eq!(r.check_and_rename_contract("/c/T.sol", "three", false), Ok("T_2".to_string()));
    assert_eq!(r.check_and_rename_contract("/b/U.sol", "two", false), Ok("U_1".to_string()));
    // compared with the first content seen, so a repeat of "two" is renamed again
    assert_eq!(r.check_and_rename_contract("/d/T.sol", "two", false), Ok("T_3".to_string()));
    assert_eq!(r.check_and_rename_contract("/e/T.sol", "one", false), Ok("T".to_string()));
}

#[test]
fn path_without_base_name_is_invalid() {
    let mut r = remapper("out");
    assert_eq!(r.check_and_rename_contract("/", "x", false), Err(RemapError::InvalidPath));
    assert_eq!(r.check_and_rename_contract("", "x", false), Err(RemapError::InvalidPath));
    assert_eq!(r.check_and_rename_contract("/p/..", "x", false), Err(RemapError::InvalidPath));
    assert_eq!(r.check_and_rename_contract("/.", "x", false), Err(RemapError::InvalidPath));
}

#[test]
fn trailing_separators_are_ignored() {
    assert_eq!(base_name_of("/p/"), Some("p".to_string()));
    assert_eq!(base_name_of("/p/A.sol/."), Some("A".to_string()));
    assert_eq!(base_name_of("a//"), Some("a".to_string()));
    let mut r = remapper("out");
    assert_eq!(r.check_and_rename_contract("/p/", "x", false), Ok("p".to_string()));
    let o = r.get_new_path("/p/", "/p", &"p".to_string()).unwrap();
    assert_eq!(o.dir, "/out");
    assert_eq!(o.path, "/out/p.sol");
    let o = r.get_new_path("/q/./r.sol/", "/q/r.sol", &"r".to_string()).unwrap();
    assert_eq!(o.dir, "/q/out");
}

#[test]
fn base_names() {
    assert_eq!(base_name_of("/p/A.sol"), Some("A".to_string()));
    assert_eq!(base_name_of("lib/a.b.sol"), Some("a.b".to_string()));
    assert_eq!(base_name_of("/p/.hidden"), Some(".hidden".to_string()));
    assert_eq!(base_name_of("Plain"), Some("Plain".to_string()));
    assert_eq!(base_name_of("/p/.."), None);
    assert_eq!(base_name_of("."), None);
}

#[test]
fn numbered_names() {
    assert_eq!(numbered(&"Token".to_string(), 1), "Token_1");
    assert_eq!(numbered(&"Token".to_string(), 1207), "Token_1207");
}

#[test]
fn output_paths() {
    let mut r = remapper("out");
    let o = r.get_new_path("/p/A.sol", "/p/A.sol", &"A".to_string()).unwrap();
    assert_eq!(o.dir, "/p/out");
    assert_eq!(o.path, "/p/out/A.sol");
    assert_eq!(o.file_name, "A.sol");
    let o = r.get_new_path("A.sol", "A.sol", &"A".to_string()).unwrap();
    assert_eq!(o.dir, "out");
    assert_eq!(o.path, "out/A.sol");
    let o = r.get_new_path("/A.sol", "/A.sol", &"A_1".to_string()).unwrap();
    assert_eq!(o.dir, "/out");
    assert_eq!(o.path, "/out/A_1.sol");
    assert!(matches!(r.get_new_path("/", "/", &"A".to_string()), Err(RemapError::InvalidPath)));
    assert!(matches!(r.get_new_path("", "", &"A".to_string()), Err(RemapError::InvalidPath)));
}

#[test]
fn renamed_import_is_rewritten() {
    let mut r = remapper("out");
    let sources = vec![
        entry("/p/a/Token.sol", "contract Token{}", &[]),
        entry("/p/b/Token.sol", "contract Token{ uint x; }", &[]),
        entry(
            "/p/C.sol",
            "import {Token} from './b/Token.sol';\nimport './a/Token.sol';\ncontract C{}",
            &["/p/b/Token.sol", "/p/a/Token.sol"],
        ),
    ];
    let plan = r.apply_local_remapping(&sources, &"/p/C.sol".to_string());
    assert_eq!(plan.error, None);
    assert_eq!(plan.files[1].path, "/p/b/out/Token_1.sol");
    assert_eq!(plan.files[1].content, "contract Token{ uint x; }");
    assert_eq!(
        plan.files[2].content,
        "import {Token} from \"./Token_1.sol\";\nimport './a/Token.sol';\ncontract C{}"
    );
}

#[test]
fn unrenamed_import_keeps_quotes() {
    let r = remapper("out");
    let text = "import   'x/Y.sol';\nimport {A, B} from \"../A.sol\";";
    let out = r.update_content(text, &vec![Some("/x/Y.sol".to_string()), Some("/A.sol".to_string())]);
    assert_eq!(out, Ok(text.to_string()));
}

#[test]
fn rewrite_with_scanner_and_table() {
    let scanner = ImportScanner::new(IMPORT_PATTERN).unwrap();
    let mut renamed = NameTable::new();
    renamed.insert("/p/A.sol".to_string(), ("/p/out/A_1.sol".to_string(), "A_1.sol".to_string()));
    let text = "// head\nimport \"./A.sol\";\nimport \"./B.sol\";\nimport {X} from './A.sol';";
    let keys = vec![
        Some("/p/A.sol".to_string()),
        Some("/p/B.sol".to_string()),
        Some("/p/A.sol".to_string()),
    ];
    let out = scanner.rewrite_imports(text, &keys, &renamed);
    assert_eq!(
        out,
        "// head\nimport \"./A_1.sol\";\nimport \"./B.sol\";\nimport {X} from \"./A_1.sol\";"
    );
}

#[test]
fn import_paths_in_order() {
    let r = remapper("out");
    let text = "import \"./A.sol\";\nimport {B} from '../lib/B.sol';\nimport nothing;";
    let paths = r.import_paths(text).unwrap();
    assert_eq!(paths, vec!["./A.sol".to_string(), "../lib/B.sol".to_string()]);
}

#[test]
fn pattern_that_does_not_compile() {
    assert!(matches!(ImportScanner::new("import ("), Err(RemapError::RegexCompileError)));
}

#[test]
fn failure_stops_bundle_at_entry() {
    let mut r = remapper("out");
    let sources = vec![
        entry("/p/A.sol", "contract A{}", &[]),
        entry("/p/..", "broken", &[]),
        entry("/p/C.sol", "contract C{}", &[]),
    ];
    let plan = r.apply_local_remapping(&sources, &"/p/A.sol".to_string());
    assert_eq!(plan.files.len(), 1);
    assert_eq!(plan.files[0].path, "/p/out/A.sol");
    assert_eq!(plan.error, Some(RemapError::InvalidPath));
}

#[test]
fn write_failure_halts_run() {
    let mut run = RemapRun::new(3);
    assert_eq!(run.next_entry(), Some(0));
    run.finish_entry(Ok(()));
    assert_eq!(run.next_entry(), Some(1));
    run.finish_entry(Err(RemapError::IoError("disk full".to_string())));
    assert_eq!(run.next_entry(), None);
    assert_eq!(run.outcome(), Err(RemapError::IoError("disk full".to_string())));
}

#[test]
fn run_without_failure_completes() {
    let mut run = RemapRun::new(2);
    while let Some(_) = run.next_entry() {
        run.finish_entry(Ok(()));
    }
    assert_eq!(run.outcome(), Ok(()));
}

#[test]
fn name_table_overrides() {
    let mut t: NameTable<u64> = NameTable::new();
    assert!(t.is_empty());
    t.insert("a".to_string(), 1);
    t.insert("b".to_string(), 2);
    t.insert("a".to_string(), 3);
    assert_eq!(t.get(&"a".to_string()), Some(&3));
    assert_eq!(t.get(&"b".to_string()), Some(&2));
    assert_eq!(t.get(&"c".to_string()), None);
    assert!(!t.is_empty());
}

#[test]
fn statement_rendering() {
    let c = Capture {
        before: String::new(),
        whole: "import {A} from './A.sol';".to_string(),
        items: Some("{A} from ".to_string()),
        path: Some("./A.sol".to_string()),
        after: String::new(),
    };
    let f = "A_1.sol".to_string();
    assert_eq!(render_import(&c, Some(&f)), "import {A} from \"./A_1.sol\";");
    assert_eq!(render_import(&c, None), "import {A} from './A.sol';");
}

#[test]
fn passthrough_configuration_kept() {
    let mut paths = HashMap::new();
    paths.insert("root".to_string(), "/p".to_string());
    let mut rules = HashMap::new();
    rules.insert("@oz/".to_string(), "lib/oz/".to_string());
    let r = LocalRemapper::new("out", paths.clone(), rules.clone());
    assert_eq!(r.project_paths(), &paths);
    assert_eq!(r.remappings(), &rules);
}

#[test]
fn import_without_canonical_path_is_kept() {
    let scanner = ImportScanner::new(IMPORT_PATTERN).unwrap();
    let mut renamed = NameTable::new();
    renamed.insert("./A.sol".to_string(), ("/p/out/A_1.sol".to_string(), "A_1.sol".to_string()));
    let text = "import './A.sol';";
    let out = scanner.rewrite_imports(text, &vec![None], &renamed);
    assert_eq!(out, text);
    let out = scanner.rewrite_imports(text, &vec![Some("./A.sol".to_string())], &renamed);
    assert_eq!(out, "import \"./A_1.sol\";");
}

#[test]
fn bundle_numbering_follows_order() {
    let mut r = remapper("out");
    let sources = vec![
        entry("/a/T.sol", "one", &[]),
        entry("/b/U.sol", "u", &[]),
        entry("/b/T.sol", "two", &[]),
        entry("/c/T.sol", "one", &[]),
        entry("/d/U.sol", "other u", &[]),
        entry("/d/T.sol", "three", &[]),
    ];
    let plan = r.apply_local_remapping(&sources, &"/a/T.sol".to_string());
    assert_eq!(plan.error, None);
    let paths: Vec<&str> = plan.files.iter().map(|f| f.path.as_str()).collect();
    assert_eq!(
        paths,
        vec![
            "/a/out/T.sol",
            "/b/out/U.sol",
            "/b/out/T_1.sol",
            "/c/out/T.sol",
            "/d/out/U_1.sol",
            "/d/out/T_2.sol",
        ]
    );
}
