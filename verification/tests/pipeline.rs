use ctxhelpr::indexer::{FileInput, Indexer};
use ctxhelpr::store::{Store, StoreError, SymbolRecord};

const REPO: &str = "/repo";

fn file(rel: &str, text: &str) -> FileInput {
    FileInput { rel_path: rel.to_string(), bytes: text.as_bytes().to_vec() }
}

fn index(store: &mut Store, files: Vec<FileInput>) -> ctxhelpr::indexer::IndexStats {
    Indexer::new()
        .index(store, REPO, &files, &vec![], 1_048_576, &None, "t0")
        .expect("index failed")
}

fn sym<'a>(syms: &'a [SymbolRecord], name: &str) -> &'a SymbolRecord {
    syms.iter().find(|s| s.name == name).unwrap_or_else(|| panic!("symbol {name} missing"))
}

#[test]
fn empty_directory_all_zero() {
    let mut store = Store::new();
    let stats = index(&mut store, vec![]);
    assert_eq!(stats.files_total, 0);
    assert_eq!(stats.files_new, 0);
    assert_eq!(stats.files_changed, 0);
    assert_eq!(stats.files_unchanged, 0);
    assert_eq!(stats.files_deleted, 0);
    assert_eq!(stats.symbols_count, 0);
    assert_eq!(stats.refs_count, 0);
}

#[test]
fn typescript_function_with_jsdoc() {
    let mut store = Store::new();
    let src = "/** Adds two numbers */\nfunction add(a: number, b: number): number {\n  return a + b;\n}\n";
    let stats = index(&mut store, vec![file("simple.ts", src)]);
    assert_eq!(stats.files_new, 1);
    let syms = store.get_file_symbols(REPO, "simple.ts");
    let add = sym(&syms, "add");
    assert_eq!(add.kind, "fn");
    assert!(add.signature.as_deref().unwrap_or("").contains("number"));
    assert!(add.doc_comment.as_deref().unwrap_or("").contains("Adds two numbers"));
    assert_eq!(add.start_line, 2);
}

#[test]
fn typescript_this_call_reference() {
    let mut store = Store::new();
    let src = "class Server {\n  start() {\n    this.listen();\n  }\n  listen() {}\n}\n";
    index(&mut store, vec![file("server.ts", src)]);
    let syms = store.get_file_symbols(REPO, "server.ts");
    let start = sym(&syms, "start");
    let deps = store.get_dependencies(REPO, start.id);
    assert!(deps.iter().any(|d| d.to_name == "this.listen"));
    // The `this.`-scoped name resolves to the method of the enclosing class.
    let listen = sym(&syms, "listen");
    assert!(deps.iter().any(|d| d.to_name == "this.listen" && d.to_symbol_id == Some(listen.id)));
}

#[test]
fn typescript_default_export_callback_refs() {
    let mut store = Store::new();
    let src = "export default fp(async (fastify) => { loadConfig(); });\n";
    index(&mut store, vec![file("plugin.ts", src)]);
    let syms = store.get_file_symbols(REPO, "plugin.ts");
    let default_sym = sym(&syms, "default");
    assert_eq!(default_sym.kind, "fn");
    let deps = store.get_dependencies(REPO, default_sym.id);
    assert!(deps.iter().any(|d| d.to_name == "fp"));
    assert!(deps.iter().any(|d| d.to_name == "loadConfig"));
}

#[test]
fn typescript_imports_aggregate() {
    let mut store = Store::new();
    let src = "import fp from 'fastify-plugin';\nimport { a, b as c } from './m';\n";
    index(&mut store, vec![file("imp.ts", src)]);
    let syms = store.get_file_symbols(REPO, "imp.ts");
    let imports = sym(&syms, "_imports");
    assert_eq!(imports.kind, "mod");
    let deps = store.get_dependencies(REPO, imports.id);
    assert!(deps.iter().any(|d| d.to_name == "fp" && d.ref_kind == "import"));
    assert!(deps.iter().any(|d| d.to_name == "a" && d.ref_kind == "import"));
}

#[test]
fn python_inheritance_reference() {
    let mut store = Store::new();
    let src = "class Animal:\n    pass\n\nclass Dog(Animal):\n    pass\n";
    index(&mut store, vec![file("zoo.py", src)]);
    let syms = store.get_file_symbols(REPO, "zoo.py");
    let dog = sym(&syms, "Dog");
    assert_eq!(dog.kind, "class");
    let deps = store.get_dependencies(REPO, dog.id);
    assert!(deps.iter().any(|d| d.to_name == "Animal" && d.ref_kind == "extends"));
}

#[test]
fn python_docstring_and_constants() {
    let mut store = Store::new();
    let src = "MAX_RETRIES = 5\n\ndef fetch(url):\n    \"\"\"Fetches a url.\"\"\"\n    return url\n";
    index(&mut store, vec![file("net.py", src)]);
    let syms = store.get_file_symbols(REPO, "net.py");
    let c = sym(&syms, "MAX_RETRIES");
    assert_eq!(c.kind, "const");
    assert_eq!(c.name_tokens, "max retries max_retries");
    let f = sym(&syms, "fetch");
    assert_eq!(f.doc_comment.as_deref(), Some("Fetches a url."));
}

#[test]
fn rust_enum_with_variants() {
    let mut store = Store::new();
    let src = "enum Shape { Circle(f64), Rectangle(f64, f64), Triangle }\n";
    index(&mut store, vec![file("shapes.rs", src)]);
    let syms = store.get_file_symbols(REPO, "shapes.rs");
    let shape = sym(&syms, "Shape");
    assert_eq!(shape.kind, "enum");
    let children: Vec<&SymbolRecord> =
        syms.iter().filter(|s| s.parent_symbol_id == Some(shape.id)).collect();
    assert_eq!(children.len(), 3);
    for name in ["Circle", "Rectangle", "Triangle"] {
        assert!(children.iter().any(|c| c.name == name && c.kind == "const"));
    }
}

#[test]
fn rust_doc_comments_and_calls() {
    let mut store = Store::new();
    let src = "/// Greets.\n/// Twice.\nfn greet() { helper(); }\n\nfn helper() {}\n";
    index(&mut store, vec![file("lib.rs", src)]);
    let syms = store.get_file_symbols(REPO, "lib.rs");
    let greet = sym(&syms, "greet");
    assert_eq!(greet.doc_comment.as_deref(), Some("Greets.\nTwice."));
    let helper = sym(&syms, "helper");
    let deps = store.get_dependencies(REPO, greet.id);
    assert!(deps.iter().any(|d| d.to_name == "helper" && d.to_symbol_id == Some(helper.id)));
    // The reverse lookup sees the same edge.
    let refs = store.get_references(REPO, helper.id);
    assert!(refs.iter().any(|r| r.from_symbol_id == greet.id));
}

#[test]
fn ruby_class_with_superclass() {
    let mut store = Store::new();
    let src = "class Dog < Animal\n  def bark\n    puts 'woof'\n  end\nend\n";
    index(&mut store, vec![file("dog.rb", src)]);
    let syms = store.get_file_symbols(REPO, "dog.rb");
    let dog = sym(&syms, "Dog");
    assert_eq!(dog.kind, "class");
    let deps = store.get_dependencies(REPO, dog.id);
    assert!(deps.iter().any(|d| d.to_name == "Animal" && d.ref_kind == "extends"));
    let bark = sym(&syms, "bark");
    assert_eq!(bark.kind, "method");
}

#[test]
fn markdown_heading_hierarchy() {
    let mut store = Store::new();
    let src = "# Project Overview\n## Installation\n### Prerequisites\n";
    index(&mut store, vec![file("README.md", src)]);
    let syms = store.get_file_symbols(REPO, "README.md");
    assert_eq!(syms.len(), 3);
    let overview = sym(&syms, "Project Overview");
    let install = sym(&syms, "Installation");
    let prereq = sym(&syms, "Prerequisites");
    assert_eq!(overview.kind, "section");
    assert_eq!(overview.parent_symbol_id, None);
    assert_eq!(install.parent_symbol_id, Some(overview.id));
    assert_eq!(prereq.parent_symbol_id, Some(install.id));
}

#[test]
fn reindex_without_changes_is_all_unchanged() {
    let mut store = Store::new();
    let files = || {
        vec![
            file("a.rs", "fn a() {}\n"),
            file("b.py", "def b():\n    pass\n"),
        ]
    };
    let first = index(&mut store, files());
    assert_eq!(first.files_new, 2);
    let second = index(&mut store, files());
    assert_eq!(second.files_unchanged, second.files_total);
    assert_eq!(second.files_new, 0);
    assert_eq!(second.files_changed, 0);
    assert_eq!(second.files_deleted, 0);
}

#[test]
fn deleted_file_leaves_no_symbols() {
    let mut store = Store::new();
    index(&mut store, vec![file("a.rs", "fn a() {}\n"), file("b.rs", "fn b() {}\n")]);
    let stats = index(&mut store, vec![file("a.rs", "fn a() {}\n")]);
    assert!(stats.files_deleted >= 1);
    assert_eq!(store.get_file_symbols(REPO, "b.rs").len(), 0);
    assert!(store.get_file_symbols(REPO, "a.rs").len() > 0);
}

#[test]
fn oversized_file_not_indexed() {
    let mut store = Store::new();
    let big = "fn x() {}\n".repeat(20);
    let stats = Indexer::new()
        .index(&mut store, REPO, &vec![file("big.rs", &big)], &vec![], 10, &None, "t0")
        .expect("index failed");
    assert_eq!(stats.files_total, 0);
    assert_eq!(store.get_file_symbols(REPO, "big.rs").len(), 0);
}

#[test]
fn user_pattern_excludes_file() {
    let mut store = Store::new();
    let pats = vec!["generated/".to_string()];
    let stats = Indexer::new()
        .index(
            &mut store,
            REPO,
            &vec![file("generated/x.rs", "fn x() {}\n"), file("src/y.rs", "fn y() {}\n")],
            &pats,
            1_048_576,
            &None,
            "t0",
        )
        .expect("index failed");
    assert_eq!(stats.files_new, 1);
    assert_eq!(store.get_file_symbols(REPO, "generated/x.rs").len(), 0);
    assert_eq!(store.get_file_symbols(REPO, "src/y.rs").len(), 1);
}

#[test]
fn changed_file_is_reextracted() {
    let mut store = Store::new();
    index(&mut store, vec![file("a.rs", "fn a() {}\n")]);
    let stats = index(&mut store, vec![file("a.rs", "fn a() {}\nfn b() {}\n")]);
    assert_eq!(stats.files_changed, 1);
    let syms = store.get_file_symbols(REPO, "a.rs");
    assert_eq!(syms.len(), 2);
}

#[test]
fn repo_mismatch_is_refused() {
    let mut store = Store::new();
    index(&mut store, vec![]);
    let r = Indexer::new().index(&mut store, "/other", &vec![], &vec![], 1_048_576, &None, "t1");
    assert!(matches!(r, Err(StoreError::RepoMismatch)));
}

#[test]
fn repo_indexed_after_run() {
    let mut store = Store::new();
    assert!(!store.is_repo_indexed(REPO));
    index(&mut store, vec![]);
    assert!(store.is_repo_indexed(REPO));
    assert!(!store.is_repo_indexed("/other"));
}

#[test]
fn symbol_detail_and_not_found() {
    let mut store = Store::new();
    index(&mut store, vec![file("a.rs", "fn a() {}\n")]);
    let syms = store.get_file_symbols(REPO, "a.rs");
    let detail = store.get_symbol_detail(REPO, syms[0].id).expect("detail");
    assert_eq!(detail.name, "a");
    assert!(matches!(
        store.get_symbol_detail(REPO, 999_999),
        Err(StoreError::SymbolNotFound)
    ));
}

#[test]
fn name_tokens_follow_tokenizer_on_reindex() {
    let mut store = Store::new();
    let src = "fn getUserById() {}\n";
    index(&mut store, vec![file("a.rs", src)]);
    index(&mut store, vec![file("a.rs", src)]);
    let syms = store.get_file_symbols(REPO, "a.rs");
    assert_eq!(syms[0].name_tokens, "get user by id getuserbyid");
}

#[test]
fn update_files_reextracts_given_files() {
    let mut store = Store::new();
    index(&mut store, vec![file("a.rs", "fn a() {}\n"), file("b.rs", "fn b() {}\n")]);
    let stats = Indexer::new()
        .update_files(
            &mut store,
            REPO,
            &vec![file("a.rs", "fn a() {}\nfn a2() {}\n")],
            &vec![],
            1_048_576,
            &None,
            "t1",
        )
        .expect("update failed");
    assert_eq!(stats.files_total, 1);
    assert_eq!(stats.files_changed, 1);
    assert_eq!(stats.files_deleted, 0);
    assert_eq!(store.get_file_symbols(REPO, "a.rs").len(), 2);
    // Untouched files keep their symbols: no deletion reconciliation here.
    assert_eq!(store.get_file_symbols(REPO, "b.rs").len(), 1);
}

#[test]
fn delete_files_by_rel_paths_cascades() {
    let mut store = Store::new();
    index(&mut store, vec![file("a.rs", "fn a() {}\n"), file("b.rs", "fn b() {}\n")]);
    let n = store
        .delete_files_by_rel_paths(REPO, &vec!["a.rs".to_string(), "missing.rs".to_string()])
        .expect("delete failed");
    assert_eq!(n, 1);
    assert_eq!(store.get_file_symbols(REPO, "a.rs").len(), 0);
    assert_eq!(store.get_file_symbols(REPO, "b.rs").len(), 1);
}

#[test]
fn index_status_totals_and_languages() {
    let mut store = Store::new();
    index(
        &mut store,
        vec![
            file("a.rs", "fn a() { b(); }\nfn b() {}\n"),
            file("c.py", "def c():\n    pass\n"),
        ],
    );
    let status = store.get_index_status(REPO).expect("status");
    assert_eq!(status.repo_path, REPO);
    assert!(status.indexed_at.is_some());
    assert_eq!(status.total_files, 2);
    assert_eq!(status.total_symbols, 3);
    assert_eq!(status.total_refs, 1);
    let lang = |l: &str| status.languages.iter().find(|p| p.0 == l).map(|p| p.1);
    assert_eq!(lang("rust"), Some(1));
    assert_eq!(lang("python"), Some(1));
}

#[test]
fn unknown_language_tag_for_ruby_and_markdown() {
    let mut store = Store::new();
    index(&mut store, vec![file("x.rb", "def x\nend\n"), file("y.md", "# Y\n")]);
    let status = store.get_index_status(REPO).expect("status");
    assert_eq!(
        status.languages.iter().find(|p| p.0 == "unknown").map(|p| p.1),
        Some(2)
    );
}


#[test]
fn builtin_ignores_apply_during_index() {
    let mut store = Store::new();
    let stats = index(
        &mut store,
        vec![
            file("node_modules/lib/x.ts", "function x() {}\n"),
            file("lib/app.min.js", "function y() {}\n"),
            file("src/ok.ts", "function ok() {}\n"),
        ],
    );
    assert_eq!(stats.files_new, 1);
    assert_eq!(store.get_file_symbols(REPO, "node_modules/lib/x.ts").len(), 0);
    assert_eq!(store.get_file_symbols(REPO, "lib/app.min.js").len(), 0);
    assert_eq!(store.get_file_symbols(REPO, "src/ok.ts").len(), 1);
}

#[test]
fn gitignore_excludes_directory_contents() {
    let mut store = Store::new();
    let gitignore = Some("generated/\n".to_string());
    let stats = Indexer::new()
        .index(
            &mut store,
            REPO,
            &vec![
                file("generated/output.ts", "function gen() {}\n"),
                file("src/main.ts", "function main() {}\n"),
            ],
            &vec![],
            1_048_576,
            &gitignore,
            "t0",
        )
        .expect("index failed");
    assert_eq!(stats.files_new, 1);
    assert_eq!(store.get_file_symbols(REPO, "generated/output.ts").len(), 0);
    assert_eq!(store.get_file_symbols(REPO, "src/main.ts").len(), 1);
}

#[test]
fn update_files_skips_unchanged_hash() {
    let mut store = Store::new();
    index(&mut store, vec![file("a.rs", "fn a() {}\n")]);
    // The same bytes again: the hash-check skips re-extraction.
    let stats = Indexer::new()
        .update_files(&mut store, REPO, &vec![file("a.rs", "fn a() {}\n")], &vec![], 1_048_576, &None, "t1")
        .expect("update failed");
    assert_eq!(stats.files_total, 0);
    assert_eq!(stats.files_changed, 0);
    assert_eq!(store.get_file_symbols(REPO, "a.rs").len(), 1);
}

#[test]
fn search_matches_subwords_and_prefixes() {
    let mut store = Store::new();
    index(
        &mut store,
        vec![file(
            "repo.ts",
            "class UserRepository {}\nconst MAX_RETRIES = 3;\nfunction unrelated() {}\n",
        )],
    );
    let hits = store.search_symbols(REPO, "repo*", 20);
    assert!(hits.iter().any(|h| h.name == "UserRepository"));
    let hits = store.search_symbols(REPO, "retries", 20);
    assert!(hits.iter().any(|h| h.name == "MAX_RETRIES"));
    let hits = store.search_symbols(REPO, "nothing_matches_this", 20);
    assert!(hits.is_empty());
    // The limit caps the result count.
    let hits = store.search_symbols(REPO, "user repository", 1);
    assert_eq!(hits.len(), 1);
}

#[test]
fn file_symbols_ordered_by_start_line() {
    let mut store = Store::new();
    let src = "import fp from 'x';\nfunction a() {}\nfunction b() {}\n";
    index(&mut store, vec![file("ord.ts", src)]);
    let syms = store.get_file_symbols(REPO, "ord.ts");
    for w in syms.windows(2) {
        assert!(w[0].start_line <= w[1].start_line);
    }
}

#[test]
fn dependencies_ordered_by_kind_then_name() {
    let mut store = Store::new();
    let src = "function z() {}\nfunction a() {}\nfunction f() { z(); a(); }\n";
    index(&mut store, vec![file("deps.ts", src)]);
    let syms = store.get_file_symbols(REPO, "deps.ts");
    let f = syms.iter().find(|s| s.name == "f").unwrap();
    let deps = store.get_dependencies(REPO, f.id);
    assert_eq!(deps.len(), 2);
    assert_eq!(deps[0].to_name, "a");
    assert_eq!(deps[1].to_name, "z");
}

#[test]
fn overview_of_mixed_repository() {
    let mut store = Store::new();
    index(
        &mut store,
        vec![
            file("src/big.rs", "struct Big {\n    a: u8,\n    b: u8,\n    c: u8,\n}\nstruct Small { x: u8 }\nfn main() {}\n"),
            file("src/lib.rs", "fn lib() {}\n"),
            file("README.md", "# Title\n"),
        ],
    );
    let o = store.get_overview(REPO).expect("overview");
    assert_eq!(o.repo_name, "repo");
    // rust twice, unknown (markdown) once; counts fall.
    assert_eq!(o.languages[0], ("rust".to_string(), 2));
    assert_eq!(o.languages[1], ("unknown".to_string(), 1));
    // Directories by symbol count: src/ leads.
    assert_eq!(o.modules[0].path, "src/");
    assert_eq!(o.modules[0].file_count, 2);
    assert!(o.modules.iter().any(|m| m.path == "./"));
    // Containers widest-first: Big (5 lines) before Small (1 line).
    assert_eq!(o.top_types[0].name, "Big");
    assert!(o.top_types.iter().any(|t| t.name == "Small"));
    // The entry point by name.
    assert!(o.entry_points.iter().any(|s| s.name == "main"));
    // Overview is not for another path.
    assert!(store.get_overview("/other").is_err());
}

#[test]
fn repo_info_reflects_counts() {
    let mut store = Store::new();
    assert!(store.repo_info_of("/cache/x.db", 4).is_none());
    index(&mut store, vec![file("a.rs", "fn a() {}\nfn b() {}\n")]);
    let info = store.repo_info_of("/cache/x.db", 4096).expect("info");
    assert_eq!(info.abs_path, REPO);
    assert!(info.last_indexed_at.is_some());
    assert_eq!(info.file_count, 1);
    assert_eq!(info.symbol_count, 2);
    assert_eq!(info.db_path, "/cache/x.db");
    assert_eq!(info.db_size_bytes, 4096);
}

#[test]
fn references_ordered_by_file_then_line() {
    let mut store = Store::new();
    index(
        &mut store,
        vec![
            file("a.ts", "function target() {}\nfunction one() { target(); }\n"),
            file("b.ts", "function two() { target(); }\n"),
        ],
    );
    let syms = store.get_file_symbols(REPO, "a.ts");
    let target = syms.iter().find(|s| s.name == "target").unwrap();
    let refs = store.get_references(REPO, target.id);
    assert_eq!(refs.len(), 2);
    assert_eq!(refs[0].from_file.as_deref(), Some("a.ts"));
    assert_eq!(refs[1].from_file.as_deref(), Some("b.ts"));
}
