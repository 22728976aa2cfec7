use office_oxide::doc::ole_objects::{
    DirEntry, EntryType, NO_ENTRY, classify, collect_children, find_direct_child,
};


fn entry(name: &str, entry_type: EntryType, child: u32, left: u32, right: u32) -> DirEntry {
    DirEntry {
        name: name.to_string(),
        entry_type,
        color: 1,
        left_sibling: left,
        right_sibling: right,
        child,
        start_sector: 0,
        stream_size: 0,
    }
}

/// A minimal but realistic tree: Root -> ObjectPool -> one embedded
/// object storage -> {CompObj, Workbook} streams.
fn build_tree_with_one_excel_object() -> Vec<DirEntry> {
    vec![
        entry("Root Entry", EntryType::RootStorage, 1, NO_ENTRY, NO_ENTRY), // 0
        entry("ObjectPool", EntryType::Storage, 2, NO_ENTRY, NO_ENTRY),     // 1
        entry("_1234567890", EntryType::Storage, 3, NO_ENTRY, NO_ENTRY),    // 2
        entry("\u{1}CompObj", EntryType::Stream, NO_ENTRY, NO_ENTRY, 4),    // 3
        entry("Workbook", EntryType::Stream, NO_ENTRY, NO_ENTRY, NO_ENTRY), // 4
    ]
}

#[test]
fn test_finds_one_embedded_excel_workbook() {
    let entries = build_tree_with_one_excel_object();
    // Exercise the free functions directly — CfbReader construction
    // needs real sector data, which this test isn't building.
    let pool_idx = find_direct_child(&entries, entries[0].child, "ObjectPool").unwrap();
    let pool = &entries[pool_idx];
    let mut out = Vec::new();
    for obj_idx in collect_children(&entries, pool.child) {
        let obj = &entries[obj_idx];
        if obj.entry_type != EntryType::Storage {
            continue;
        }
        let children = collect_children(&entries, obj.child);
        let names: Vec<&str> = children.iter().map(|&i| entries[i].name.as_str()).collect();
        if let Some(description) = classify(&names) {
            out.push(description);
        }
    }
    assert_eq!(out, vec!["Embedded Microsoft Excel Workbook".to_string()]);
}

#[test]
fn test_no_object_pool_yields_empty() {
    let entries = vec![entry(
        "Root Entry",
        EntryType::RootStorage,
        NO_ENTRY,
        NO_ENTRY,
        NO_ENTRY,
    )];
    assert!(find_direct_child(&entries, entries[0].child, "ObjectPool").is_none());
}

#[test]
fn test_classify_recognizes_every_known_type() {
    assert_eq!(classify(&["Workbook"]).as_deref(), Some("Embedded Microsoft Excel Workbook"));
    assert_eq!(
        classify(&["Equation Native"]).as_deref(),
        Some("Embedded Equation Editor/MathType Object")
    );
    assert_eq!(
        classify(&["WordDocument"]).as_deref(),
        Some("Embedded Microsoft Word Document")
    );
    assert_eq!(
        classify(&["PowerPoint Document"]).as_deref(),
        Some("Embedded Microsoft PowerPoint Presentation")
    );
    assert_eq!(classify(&["Package"]).as_deref(), Some("Embedded OLE Package"));
    assert_eq!(classify(&["\u{1}CompObj"]).as_deref(), Some("Embedded OLE Object"));
    assert_eq!(classify(&["SomethingUnknown"]), None);
    assert_eq!(classify(&[]), None);
}

/// A sibling cycle (corrupted/adversarial file) must not hang.
#[test]
fn test_cyclic_siblings_do_not_hang() {
    let entries = vec![
        entry("Root Entry", EntryType::RootStorage, 1, NO_ENTRY, NO_ENTRY),
        // node 1's right sibling points back to itself.
        entry("Loop", EntryType::Storage, NO_ENTRY, NO_ENTRY, 1),
    ];
    let out = collect_children(&entries, entries[0].child);
    assert!(!out.is_empty());
}
