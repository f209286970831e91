use unifi_protect_bulk_download::cameras::should_download_camera;

#[test]
fn selects_all_cameras_when_no_filter_is_provided() {
    let requested_cameras = Vec::new();

    assert!(should_download_camera(
        "Front Door",
        "camera-id-1",
        &requested_cameras
    ));
}

#[test]
fn selects_all_cameras_for_all_or_wildcard_filter() {
    assert!(should_download_camera(
        "Front Door",
        "camera-id-1",
        &[String::from("all")]
    ));
    assert!(should_download_camera(
        "Front Door",
        "camera-id-1",
        &[String::from("*")]
    ));
}

#[test]
fn selects_only_cameras_matching_requested_name_or_id() {
    let requested_cameras = vec![String::from("Front Door"), String::from("camera-id-2")];

    assert!(should_download_camera(
        "Front Door",
        "camera-id-1",
        &requested_cameras
    ));
    assert!(should_download_camera(
        "Back Yard",
        "camera-id-2",
        &requested_cameras
    ));
    assert!(!should_download_camera(
        "Garage",
        "camera-id-3",
        &requested_cameras
    ));
}

#[test]
fn all_filter_ignores_ascii_case() {
    assert!(should_download_camera("Garage", "id-3", &[String::from("ALL")]));
    assert!(should_download_camera("Garage", "id-3", &[String::from("aLl")]));
    assert!(!should_download_camera("Garage", "id-3", &[String::from("alle")]));
}

#[test]
fn requested_entries_are_trimmed() {
    assert!(should_download_camera("Front Door", "id-1", &[String::from("  Front Door\t")]));
    assert!(should_download_camera("Front Door", "id-1", &[String::from(" * ")]));
    assert!(should_download_camera("Front Door", "id-1", &[String::from("\u{3000}id-1\u{a0}")]));
}

#[test]
fn blank_entries_do_not_filter() {
    assert!(should_download_camera("Garage", "id-3", &[String::from(""), String::from("   ")]));
    assert!(!should_download_camera("Garage", "id-3", &[String::from(" "), String::from("Porch")]));
}

#[test]
fn names_are_compared_exactly() {
    assert!(!should_download_camera("Front Door", "id-1", &[String::from("front door")]));
    assert!(!should_download_camera("Front Door", "id-1", &[String::from("Front")]));
}

#[test]
fn selection_ignores_order_repeats_and_blank_entries() {
    let base = vec![String::from("Garage"), String::from(" cam-7 ")];
    let shuffled = vec![
        String::from("  "),
        String::from("cam-7"),
        String::from(""),
        String::from("Garage"),
        String::from("Garage "),
    ];
    for (name, id) in [("Garage", "cam-1"), ("Porch", "cam-7"), ("Porch", "cam-8")] {
        assert_eq!(
            should_download_camera(name, id, &base),
            should_download_camera(name, id, &shuffled)
        );
    }
    assert!(!should_download_camera("Porch", "cam-8", &shuffled));
    assert!(should_download_camera("Porch", "cam-8", &[String::from(" "), String::from("")]));
}
