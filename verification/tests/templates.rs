use packing_interface::algorithm_templates::{
    build_custom_template_entry, create_new_entry, custom_template_save_path, custom_template_starter,
    default_root_template_for_language, default_true, fallback_templates, language_dir, language_label,
    load_root_templates, load_templates, new_custom_template, sanitize_template_slug, template_code_path,
    template_files_exist, templates_for_language, AlgorithmTemplateEntry,
};
use packing_interface::types::CodeLanguage;

fn entry(id: &str, name: &str, language: CodeLanguage, path: Option<&str>, builtin: bool, editable: bool, is_root: bool) -> AlgorithmTemplateEntry {
    AlgorithmTemplateEntry {
        id: id.to_string(),
        name: name.to_string(),
        description: String::new(),
        language,
        path: path.map(|p| p.to_string()),
        builtin,
        editable,
        is_root,
    }
}

#[test]
fn supports_language_matches_language() {
    let e = entry("a", "A", CodeLanguage::Cpp, Some("cpp/root/a.cpp"), false, true, true);
    assert!(e.supports_language(CodeLanguage::Cpp));
    assert!(!e.supports_language(CodeLanguage::Python));
}

#[test]
fn create_new_entry_is_recognised() {
    let e = create_new_entry(CodeLanguage::Python);
    assert!(e.is_create_new());
    assert_eq!(e.id, "__create_new__");
    assert_eq!(e.name, "Create New");
    assert_eq!(
        e.description,
        "Create a new editable Python template saved under algorithm_templates/python/root/."
    );
    assert_eq!(e.path, None);
    assert!(e.is_read_only());
    assert_eq!(e.display_label(), "Create New...");
    let cpp = create_new_entry(CodeLanguage::Cpp);
    assert_eq!(cpp.description, "Create a new editable C++ template saved under algorithm_templates/cpp/root/.");
}

#[test]
fn read_only_when_builtin_or_not_editable() {
    assert!(entry("a", "A", CodeLanguage::Cpp, None, true, true, true).is_read_only());
    assert!(entry("a", "A", CodeLanguage::Cpp, None, false, false, true).is_read_only());
    assert!(!entry("a", "A", CodeLanguage::Cpp, None, false, true, true).is_read_only());
}

#[test]
fn path_only_for_own_language() {
    let e = entry("a", "A", CodeLanguage::Python, Some("python/root/a.py"), false, true, true);
    assert_eq!(e.path_for_language(CodeLanguage::Python), Some("python/root/a.py"));
    assert_eq!(e.path_for_language(CodeLanguage::Cpp), None);
    let no_path = entry("b", "B", CodeLanguage::Python, None, false, true, true);
    assert_eq!(no_path.path_for_language(CodeLanguage::Python), None);
}

#[test]
fn display_labels() {
    assert_eq!(entry("a", "NFDH", CodeLanguage::Python, None, true, false, true).display_label(), "NFDH [DEFAULT]");
    assert_eq!(entry("a", "Mine", CodeLanguage::Python, None, false, true, true).display_label(), "Mine");
}

#[test]
fn language_names() {
    assert_eq!(language_dir(CodeLanguage::Cpp), "cpp");
    assert_eq!(language_dir(CodeLanguage::Java), "java");
    assert_eq!(language_label(CodeLanguage::Cpp), "C++");
    assert_eq!(language_label(CodeLanguage::Python), "Python");
    assert!(default_true());
}

#[test]
fn fallback_list_is_complete() {
    let f = fallback_templates();
    assert_eq!(f.len(), 14);
    assert_eq!(f[0].id, "blank_python");
    assert_eq!(f[0].path.as_deref(), Some("python/root/blank.py"));
    assert_eq!(f[1].id, "blank_cpp");
    assert_eq!(f[8].id, "default_node_python");
    assert!(!f[8].is_root);
    assert_eq!(f[10].id, "bfdh_python");
    assert_eq!(f[10].language, CodeLanguage::Python);
    assert_eq!(f[10].path.as_deref(), Some("python/root/bfdh.py"));
    assert_eq!(f[12].id, "RF_cpp");
    assert_eq!(f[13].id, "bfdh_python");
    assert_eq!(f[13].language, CodeLanguage::Cpp);
    assert_eq!(f[13].path.as_deref(), Some("cpp/root/rf.cpp"));
    assert!(f.iter().all(|t| t.builtin && !t.editable));
}

#[test]
fn fallback_files_follow_layout() {
    let f = fallback_templates();
    for t in f.iter() {
        let kind = if t.is_root { "root" } else { "node" };
        let prefix = format!("{}/{}/", language_dir(t.language), kind);
        assert!(t.path.as_deref().unwrap().starts_with(&prefix), "{}", t.id);
    }
}

#[test]
fn templates_for_python_end_with_create_new() {
    let f = fallback_templates();
    let py = templates_for_language(&f, CodeLanguage::Python);
    let ids: Vec<&str> = py.iter().map(|t| t.id.as_str()).collect();
    assert_eq!(ids, vec!["blank_python", "nfdh_python", "ffdh_python", "fspp_python", "three_fspp_python", "bfdh_python", "rf_python", "__create_new__"]);
    let java = templates_for_language(&f, CodeLanguage::Java);
    assert!(java.is_empty());
    let cpp = templates_for_language(&f, CodeLanguage::Cpp);
    assert_eq!(cpp.len(), 6);
    assert!(cpp.last().unwrap().is_create_new());
}

#[test]
fn default_template_prefers_blank() {
    let list = vec![
        entry("x", "NFDH", CodeLanguage::Python, Some("p"), false, true, true),
        entry("y", "bLaNk", CodeLanguage::Python, Some("q"), false, true, true),
    ];
    assert_eq!(default_root_template_for_language(&list, CodeLanguage::Python).id, "y");
    let no_blank = vec![
        entry("n", "Node", CodeLanguage::Python, Some("p"), false, true, false),
        entry("x", "NFDH", CodeLanguage::Python, Some("p"), false, true, true),
    ];
    assert_eq!(default_root_template_for_language(&no_blank, CodeLanguage::Python).id, "x");
    assert_eq!(default_root_template_for_language(&Vec::new(), CodeLanguage::Cpp).id, "blank_cpp");
    assert_eq!(default_root_template_for_language(&Vec::new(), CodeLanguage::Java).id, "blank_python");
}

#[test]
fn files_exist_rules() {
    let c = create_new_entry(CodeLanguage::Cpp);
    assert!(template_files_exist(&c, false));
    let with_path = entry("a", "A", CodeLanguage::Cpp, Some("cpp/root/a.cpp"), false, true, true);
    assert!(template_files_exist(&with_path, true));
    assert!(!template_files_exist(&with_path, false));
    let no_path = entry("b", "B", CodeLanguage::Cpp, None, false, true, true);
    assert!(!template_files_exist(&no_path, true));
}

#[test]
fn loading_falls_back_to_builtins() {
    assert_eq!(load_templates(None, &Vec::new()).len(), 14);
    let manifest = vec![entry("a", "A", CodeLanguage::Cpp, Some("cpp/root/a.cpp"), false, true, true)];
    assert_eq!(load_templates(Some(manifest.clone()), &vec![false]).len(), 14);
    let kept = load_templates(Some(manifest), &vec![true]);
    assert_eq!(kept.len(), 1);
    assert_eq!(kept[0].id, "a");
}

#[test]
fn loading_roots_drops_node_templates() {
    let manifest = vec![
        entry("a", "A", CodeLanguage::Cpp, Some("a"), false, true, true),
        entry("n", "N", CodeLanguage::Cpp, Some("n"), false, true, false),
        entry("b", "B", CodeLanguage::Python, Some("b"), false, true, true),
    ];
    let roots = load_root_templates(Some(manifest), &vec![true, true, false]);
    assert_eq!(roots.len(), 1);
    assert_eq!(roots[0].id, "a");
    assert_eq!(load_root_templates(None, &Vec::new()).len(), 12);
}

#[test]
fn starters() {
    let py = custom_template_starter(CodeLanguage::Python);
    assert!(py.starts_with("import packing_lib\nfrom typing import List, Tuple\n\nclass Packing:\n"));
    assert!(py.ends_with("        return packing_lib.output_from_placements(bin_width, placements)\n"));
    let cpp = custom_template_starter(CodeLanguage::Cpp);
    assert!(cpp.starts_with("#include \"packing_lib.h\"\nusing namespace packing;\n\nclass Packing {\npublic:\n"));
    assert!(cpp.ends_with("    }\n};\n"));
    assert_eq!(custom_template_starter(CodeLanguage::Java), "");
}

#[test]
fn slugs() {
    assert_eq!(sanitize_template_slug("My Template!!"), "my_template");
    assert_eq!(sanitize_template_slug("  Fancy--Algo 2 "), "fancy_algo_2");
    assert_eq!(sanitize_template_slug("!!!"), "custom_template");
    assert_eq!(sanitize_template_slug(""), "custom_template");
    assert_eq!(sanitize_template_slug("__a__b__"), "a_b");
    assert_eq!(sanitize_template_slug("Été"), "t");
}

#[test]
fn custom_entry_takes_first_free_id() {
    let mut list = fallback_templates();
    let e = build_custom_template_entry(&list, CodeLanguage::Python, "My Algo", "");
    assert_eq!(e.id, "custom_python_my_algo_1");
    assert_eq!(e.path.as_deref(), Some("python/root/custom_python_my_algo_1.py"));
    assert_eq!(e.description, "Editable custom Python template.");
    assert!(!e.builtin && e.editable && e.is_root);
    list.push(e);
    list.push(entry("custom_python_my_algo_2", "x", CodeLanguage::Python, None, false, true, true));
    let next = build_custom_template_entry(&list, CodeLanguage::Python, "My Algo", "Fast one");
    assert_eq!(next.id, "custom_python_my_algo_3");
    assert_eq!(next.description, "Fast one");
    let cpp = build_custom_template_entry(&list, CodeLanguage::Cpp, "!!", "");
    assert_eq!(cpp.id, "custom_cpp_custom_template_1");
    assert_eq!(cpp.path.as_deref(), Some("cpp/root/custom_cpp_custom_template_1.cpp"));
    assert_eq!(cpp.description, "Editable custom C++ template.");
}

#[test]
fn new_custom_template_checks() {
    let list = fallback_templates();
    assert_eq!(
        new_custom_template(&list, CodeLanguage::Java, "X", "").unwrap_err(),
        "Custom templates are only supported for Python and C++."
    );
    assert_eq!(new_custom_template(&list, CodeLanguage::Python, "   ", "").unwrap_err(), "Template name is required.");
    assert_eq!(
        new_custom_template(&list, CodeLanguage::Python, "  nfdh ", "").unwrap_err(),
        "A template named 'nfdh' already exists."
    );
    let ok = new_custom_template(&list, CodeLanguage::Cpp, "  fspp  ", "  mine  ").unwrap();
    assert_eq!(ok.name, "fspp");
    assert_eq!(ok.description, "mine");
    assert_eq!(ok.id, "custom_cpp_fspp_1");
}

#[test]
fn code_paths_and_messages() {
    let t = entry("a", "Mine", CodeLanguage::Python, Some("python/root/a.py"), false, true, true);
    assert_eq!(template_code_path(&t, CodeLanguage::Python).unwrap(), "python/root/a.py");
    assert_eq!(
        template_code_path(&t, CodeLanguage::Cpp).unwrap_err(),
        "Template 'Mine' does not define a C++ file."
    );
    assert_eq!(custom_template_save_path(&t, CodeLanguage::Python).unwrap(), Some("python/root/a.py".to_string()));
    assert_eq!(custom_template_save_path(&t, CodeLanguage::Cpp).unwrap_err(), "Template 'Mine' has no C++ file.");
    let builtin = entry("b", "B", CodeLanguage::Python, Some("p"), true, false, true);
    assert_eq!(custom_template_save_path(&builtin, CodeLanguage::Python).unwrap(), None);
}

#[test]
fn clone_keeps_every_field() {
    let e = entry("a", "A", CodeLanguage::Cpp, Some("x"), true, false, true);
    assert_eq!(e.clone(), e);
}
