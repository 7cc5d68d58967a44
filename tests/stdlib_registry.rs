use astrixa::stdlib::{
    generate_docs, get_by_category, get_stdlib_info, is_ai, is_fs_function, is_stdlib, is_web3,
    StdlibCategory,
};

#[test]
fn test_is_stdlib() {
    assert!(is_stdlib("print"));
    assert!(is_stdlib("time"));
    assert!(is_stdlib("hash"));
    assert!(!is_stdlib("custom_func"));
}

#[test]
fn test_get_stdlib_info() {
    let info = get_stdlib_info("print").unwrap();
    assert_eq!(info.name, "print");
    assert_eq!(info.category, StdlibCategory::Core);
}

#[test]
fn test_get_by_category() {
    let core_funcs = get_by_category(StdlibCategory::Core);
    assert!(core_funcs.len() >= 3);

    let math_funcs = get_by_category(StdlibCategory::Math);
    assert!(math_funcs.len() >= 3);
}

#[test]
fn test_all_categories_covered() {
    assert!(!get_by_category(StdlibCategory::Core).is_empty());
    assert!(!get_by_category(StdlibCategory::Math).is_empty());
    assert!(!get_by_category(StdlibCategory::Time).is_empty());
    assert!(!get_by_category(StdlibCategory::Crypto).is_empty());
}

#[test]
fn registry_details() {
    let pow = get_stdlib_info("pow").unwrap();
    assert_eq!(pow.param_count, 2);
    assert_eq!(pow.return_type, "int");
    assert!(get_stdlib_info("nothing").is_none());
    assert_eq!(get_by_category(StdlibCategory::Core).len(), 5);
    assert_eq!(get_by_category(StdlibCategory::Time).len(), 2);
    assert!(get_by_category(StdlibCategory::String).is_empty());
    assert!(get_by_category(StdlibCategory::AI).is_empty());
    assert!(!is_stdlib("ai.generate"));
    assert!(is_ai("ai.generate"));
}

#[test]
fn call_families() {
    assert!(is_ai("ai.embed"));
    assert!(!is_ai("ai"));
    assert!(is_web3("web3.send"));
    assert!(!is_web3("web3.mint"));
    assert!(is_fs_function("fs.write"));
    assert!(!is_fs_function("print"));
}

#[test]
fn docs_list_every_category_section() {
    let docs = generate_docs();
    assert!(docs.starts_with("# ASTRIXA Standard Library Reference\n\n"));
    assert!(docs.contains("## Core Functions\n\n### `print()`\nPrint a value to stdout (no newline)\n\n**Params:** 1\n**Returns:** `void`\n\n"));
    assert!(docs.contains("## AI Functions"));
    assert!(!docs.contains("## String Functions"));
}
