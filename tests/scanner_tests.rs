use hot_reload::scanner::{is_pruned_entry_name, is_wanted_file, scan_listing, scan_resources, ScanEntry};

fn entry(path: &str, is_dir: bool) -> ScanEntry {
    ScanEntry { parts: path.split('/').map(|s| s.to_string()).collect(), is_dir }
}

fn sample_tree() -> Vec<ScanEntry> {
    vec![
        entry("resources", true),
        entry("resources/[core]", true),
        entry("resources/[core]/banking", true),
        entry("resources/[core]/banking/fxmanifest.lua", false),
        entry("resources/[core]/banking/server.lua", false),
        entry("resources/[core]/banking/Client.lua", false),
        entry("resources/[core]/banking/html", true),
        entry("resources/[core]/banking/html/app.js", false),
        entry("resources/[core]/banking/html/style.css", false),
        entry("resources/[core]/banking/node_modules", true),
        entry("resources/[core]/banking/node_modules/dep.js", false),
        entry("resources/[core]/banking/.hidden", true),
        entry("resources/[core]/banking/.hidden/secret.lua", false),
        entry("resources/[core]/banking/Bridge", true),
        entry("resources/[core]/banking/Bridge/Net.dll", false),
        entry("resources/Admin", true),
        entry("resources/Admin/__resource.lua", false),
        entry("resources/Admin/main.js", false),
        entry("resources/Admin/webpack.config.js", false),
        entry("resources/empty", true),
        entry("resources/empty/fxmanifest.lua", false),
        entry("resources/empty/readme.txt", false),
        entry("resources/plain", true),
        entry("resources/plain/client.lua", false),
    ]
}

fn names(r: &Vec<(String, Vec<String>)>) -> Vec<String> {
    r.iter().map(|(n, _)| n.clone()).collect()
}

#[test]
fn snapshot_lists_resources_in_case_insensitive_order() {
    let r = scan_listing(&sample_tree());
    assert_eq!(names(&r), vec!["Admin".to_string(), "banking".to_string(), "empty".to_string()]);
    assert_eq!(r[2].1, vec!["fxmanifest.lua".to_string()]);
}

#[test]
fn resource_files_follow_the_sort_policy() {
    let r = scan_listing(&sample_tree());
    let banking = &r[1];
    assert_eq!(banking.0, "banking");
    assert_eq!(
        banking.1,
        vec![
            "Client.lua".to_string(),
            "fxmanifest.lua".to_string(),
            "server.lua".to_string(),
            "Bridge/Net.dll".to_string(),
            "html/app.js".to_string(),
        ]
    );
    assert_eq!(r[0].1, vec!["__resource.lua".to_string(), "main.js".to_string()]);
}

#[test]
fn ignored_subdirectories_never_appear() {
    let r = scan_listing(&sample_tree());
    for (_, files) in &r {
        for f in files {
            assert!(!f.contains("node_modules"));
            assert!(!f.contains(".hidden"));
            assert!(!f.contains("webpack.config.js"));
        }
    }
}

#[test]
fn rescanning_gives_identical_snapshot() {
    let a = scan_listing(&sample_tree());
    let b = scan_listing(&sample_tree());
    assert_eq!(a, b);
    let mut shuffled = sample_tree();
    shuffled.reverse();
    shuffled.swap(2, 7);
    let c = scan_listing(&shuffled);
    assert_eq!(a, c);
}

#[test]
fn directory_without_manifest_is_no_resource() {
    let r = scan_listing(&sample_tree());
    assert!(!names(&r).contains(&"plain".to_string()));
    assert!(!names(&r).contains(&"html".to_string()));
}

#[test]
fn empty_listing_gives_empty_snapshot() {
    let r = scan_resources("resources".to_string(), &vec![]);
    assert_eq!(r.resources_path, "resources");
    assert!(r.resources.is_empty());
}

#[test]
fn nested_resource_files_count_for_both() {
    let l = vec![
        entry("root", true),
        entry("root/outer", true),
        entry("root/outer/fxmanifest.lua", false),
        entry("root/outer/inner", true),
        entry("root/outer/inner/fxmanifest.lua", false),
        entry("root/outer/inner/a.lua", false),
    ];
    let r = scan_listing(&l);
    assert_eq!(r.len(), 2);
    assert_eq!(r[0].0, "inner");
    assert_eq!(r[0].1, vec!["a.lua".to_string(), "fxmanifest.lua".to_string()]);
    assert_eq!(r[1].0, "outer");
    assert_eq!(
        r[1].1,
        vec!["fxmanifest.lua".to_string(), "inner/a.lua".to_string(), "inner/fxmanifest.lua".to_string()]
    );
}

#[test]
fn name_filters() {
    assert!(is_pruned_entry_name("node_modules"));
    assert!(is_pruned_entry_name(".git"));
    assert!(is_pruned_entry_name(".anything"));
    assert!(is_pruned_entry_name("logs"));
    assert!(!is_pruned_entry_name("client"));
    assert!(is_wanted_file("a.lua"));
    assert!(is_wanted_file("b.js"));
    assert!(is_wanted_file("c.dll"));
    assert!(!is_wanted_file("d.json"));
    assert!(!is_wanted_file(".lua"));
    assert!(!is_wanted_file("webpack.config.js"));
    assert!(!is_wanted_file("a.LUA"));
}

#[test]
fn file_order_ignores_case() {
    let l = vec![
        entry("r", true),
        entry("r/fxmanifest.lua", false),
        entry("r/B.lua", false),
        entry("r/a.lua", false),
        entry("r/Zed", true),
        entry("r/Zed/x.lua", false),
        entry("r/alpha", true),
        entry("r/alpha/Y.lua", false),
    ];
    let r = scan_listing(&l);
    assert_eq!(r.len(), 1);
    assert_eq!(r[0].0, "r");
    assert_eq!(
        r[0].1,
        vec![
            "a.lua".to_string(),
            "B.lua".to_string(),
            "fxmanifest.lua".to_string(),
            "alpha/Y.lua".to_string(),
            "Zed/x.lua".to_string(),
        ]
    );
}

#[test]
fn resource_names_ignore_case() {
    let l = vec![
        entry("root", true),
        entry("root/beta", true),
        entry("root/beta/fxmanifest.lua", false),
        entry("root/Alpha", true),
        entry("root/Alpha/fxmanifest.lua", false),
        entry("root/gamma", true),
        entry("root/gamma/__resource.lua", false),
    ];
    let r = scan_listing(&l);
    assert_eq!(names(&r), vec!["Alpha".to_string(), "beta".to_string(), "gamma".to_string()]);
}

#[test]
fn same_name_resources_merge() {
    let l = vec![
        entry("root", true),
        entry("root/[a]", true),
        entry("root/[a]/shop", true),
        entry("root/[a]/shop/fxmanifest.lua", false),
        entry("root/[a]/shop/one.lua", false),
        entry("root/[b]", true),
        entry("root/[b]/shop", true),
        entry("root/[b]/shop/fxmanifest.lua", false),
        entry("root/[b]/shop/two.lua", false),
    ];
    let r = scan_listing(&l);
    assert_eq!(r.len(), 1);
    assert_eq!(r[0].1, vec!["fxmanifest.lua".to_string(), "one.lua".to_string(), "two.lua".to_string()]);
}
