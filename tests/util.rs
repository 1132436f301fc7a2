use lzn::util::{name_order_keys, sort_by_keys, sort_by_name_order, try_sort_by_name_order, try_windows_949};

fn strings(v: &[&str]) -> Vec<String> {
    v.iter().map(|s| s.to_string()).collect()
}

#[test]
fn sorts_paths_by_numeric_stem() {
    let paths = strings(&["dir/10.jpg", "dir/2.jpg", "dir/1.jpg", "other/3.png"]);
    assert_eq!(
        sort_by_name_order(paths),
        strings(&["dir/1.jpg", "dir/2.jpg", "other/3.png", "dir/10.jpg"])
    );
}

#[test]
fn name_order_keys_need_numeric_stems() {
    assert_eq!(name_order_keys(&strings(&["a/7.jpg", "9"])), Some(vec![7, 9]));
    assert_eq!(name_order_keys(&strings(&["a/7.jpg", "a/cover.jpg"])), None);
}

#[test]
fn try_sort_reports_non_numeric_stems() {
    assert_eq!(try_sort_by_name_order(strings(&["x/b.jpg", "x/1.jpg"])), None);
    assert_eq!(
        try_sort_by_name_order(strings(&["x/2.jpg", "x/1.jpg"])),
        Some(strings(&["x/1.jpg", "x/2.jpg"]))
    );
    assert_eq!(try_sort_by_name_order(vec![]), Some(vec![]));
}

#[test]
fn sort_by_keys_orders_by_key() {
    let (k, v) = sort_by_keys(vec![3, 1, 3, 2], strings(&["a", "b", "c", "d"]));
    assert_eq!(k, vec![1, 2, 3, 3]);
    assert_eq!(v, strings(&["b", "d", "a", "c"]));
}

#[test]
fn windows_949_names_decode() {
    // "한글" in the Korean code page
    assert_eq!(try_windows_949(&[0xC7, 0xD1, 0xB1, 0xDB]), "한글");
    assert_eq!(try_windows_949(b"plain"), "plain");
}

#[test]
fn invalid_windows_949_falls_back_to_utf8() {
    // valid UTF-8 for "é", not a valid Korean code page sequence at its end
    let bytes = [0x41, 0xC3, 0xA9, 0xFF];
    assert_eq!(try_windows_949(&bytes), String::from_utf8_lossy(&bytes).into_owned());
    assert_eq!(try_windows_949(&[0xFF]), "\u{FFFD}");
}
