use artifact_keeper_cli::cache::{blob_dir_parts, closure_members_of, parse_node_list, sanitize_seg, CacheKey};

#[test]
fn cache_key_constructors() {
    let k = CacheKey::npm("lodash", "4.17.21", Some("linux-x64"), Some("20"));
    assert_eq!((k.ecosystem.as_str(), k.target.as_str(), k.node.as_str()), ("npm", "linux-x64", "20"));
    let k = CacheKey::npm("lodash", "4.17.21", None, None);
    assert_eq!((k.target.as_str(), k.node.as_str()), ("", ""));
    let k = CacheKey::pypi("requests", "2.31.0", Some("win_amd64"), Some("3.11"));
    assert_eq!((k.ecosystem.as_str(), k.target.as_str(), k.node.as_str()), ("pypi", "win_amd64", "3.11"));
    let k = CacheKey::go("github.com/x/y", "v1.0.0");
    assert_eq!((k.ecosystem.as_str(), k.name.as_str(), k.version.as_str()), ("go", "github.com/x/y", "v1.0.0"));
    assert_eq!(CacheKey::cargo("serde", "1.0.0").ecosystem, "cargo");
}

#[test]
fn blob_layout() {
    let k = CacheKey::npm("@scope/pkg", "1.0.0", Some("linux-x64"), Some("20"));
    assert_eq!(blob_dir_parts(&k), vec!["npm", "@scope", "pkg", "linux-x64", "node-20", "1.0.0"]);
    let k = CacheKey::go("github.com/x/y", "v1.0.0+incompatible:a");
    assert_eq!(blob_dir_parts(&k), vec!["go", "github.com", "x", "y", "v1.0.0+incompatible_a"]);
    assert_eq!(sanitize_seg(r#"a/b\c:d*e?f"g<h>i|j"#), "a_b_c_d_e_f_g_h_i_j");
}

#[test]
fn closure_members_root_first_once() {
    let rows = vec![
        ("a".to_string(), "1".to_string()),
        ("root".to_string(), "2".to_string()),
        ("a".to_string(), "1".to_string()),
        ("b".to_string(), "3".to_string()),
    ];
    let m = closure_members_of("root", "2", &rows);
    assert_eq!(
        m,
        vec![
            ("root".to_string(), "2".to_string()),
            ("a".to_string(), "1".to_string()),
            ("b".to_string(), "3".to_string())
        ]
    );
}

#[test]
fn node_list_errors_and_trims() {
    assert_eq!(parse_node_list(&vec![" v18 , ,vv20".into()]).unwrap(), vec!["18", "20"]);
    let e = parse_node_list(&vec!["18,20 beta".into()]).unwrap_err();
    assert_eq!(e.to_string(), "Invalid --node '20 beta' (expected major like 18 or version like 20.11.0)");
    assert!(parse_node_list(&vec![]).unwrap().is_empty());
}
