use crown_bot::commands::custom_image::check_valid_host;

#[test]
fn test_check_valid_host() {
    let image_link = "https://imgur.com/foo.png";
    assert!(check_valid_host(image_link))
}

#[test]
fn test_check_valid_host_imgur() {
    let image_link = "https://i.imgur.com/foo.png";
    assert!(check_valid_host(image_link))
}

#[test]
fn test_check_valid_host_image_chest() {
    let image_link = "https://cdn.imgchest.com/files/dummy.png";
    assert!(check_valid_host(image_link))
}

#[test]
fn check_valid_host_refuses_other_hosts() {
    assert!(!check_valid_host("http://imgur.com/foo.png"));
    assert!(!check_valid_host("https://example.com/https://imgur.com/"));
    assert!(!check_valid_host("https://imgchest.com/p/abc"));
    assert!(!check_valid_host(""));
    assert!(!check_valid_host("https://imgur.com"));
    assert!(check_valid_host("https://imgur.com/"));
}
