use crown_bot::commands::mudae::image_create::{
    check_valid_host, fetch_character, parse_command_arguments, validate_image_request,
};
use crown_bot::db::lookup::{after_lookup, DatabaseError, LookupStep};
use crown_bot::constants::{
    CHARACTER_NAME_NOT_PROVIDED, CHARACTER_NOT_FOUND, DATABASE_QUERY_ERROR,
    IMAGE_LINK_NOT_PROVIDED, INVALID_IMAGE_HOST,
};
use crown_bot::db::models::character::Character;

#[test]
fn image_create_test_parse_command_arguments() {
    let result = parse_command_arguments("CharacterName $ Link1$ Link2");

    assert_eq!(result, Ok(("CharacterName", vec!["Link1", "Link2"])));
}

#[test]
fn image_create_test_parse_command_arguments_is_no_character() {
    let result = parse_command_arguments("$Link1");
    assert_eq!(result, Err(CHARACTER_NAME_NOT_PROVIDED));

    let result = parse_command_arguments("$");
    assert_eq!(result, Err(CHARACTER_NAME_NOT_PROVIDED));
    let result = parse_command_arguments("");
    assert_eq!(result, Err(CHARACTER_NAME_NOT_PROVIDED));
}

#[test]
fn image_create_test_parse_command_arguments_is_no_link() {
    let result = parse_command_arguments("CharacterName$$$");
    assert_eq!(result, Err(IMAGE_LINK_NOT_PROVIDED));

    let result = parse_command_arguments("CharacterName");
    assert_eq!(result, Err(IMAGE_LINK_NOT_PROVIDED));
}

#[test]
fn image_create_test_check_valid_host() {
    let image_link = "https://imgur.com/foo.png";
    assert!(check_valid_host(image_link))
}

#[test]
fn image_create_test_check_valid_host_imgur() {
    let image_link = "https://i.imgur.com/foo.png";
    assert!(check_valid_host(image_link))
}

#[test]
fn image_create_test_check_valid_host_image_chest() {
    let image_link = "https://cdn.imgchest.com/files/dummy.png";
    assert!(check_valid_host(image_link))
}

#[test]
fn parse_command_arguments_trims_unicode_white_space() {
    let result = parse_command_arguments("\u{3000}Rem\t$\n a b \u{a0}$  $c\r\n");
    assert_eq!(result, Ok(("Rem", vec!["a b", "c"])));
}

#[test]
fn parse_command_arguments_keeps_multibyte_text() {
    let result = parse_command_arguments("Émilia $ ✓link");
    assert_eq!(result, Ok(("Émilia", vec!["✓link"])));
}

#[test]
fn parsed_links_are_trimmed_and_free_of_separators() {
    let (name, links) = parse_command_arguments(" Kurisu $ https://i.imgur.com/a.png $$ x ").unwrap();
    assert_eq!(name, "Kurisu");
    for link in &links {
        assert!(!link.is_empty());
        assert_eq!(*link, link.trim());
        assert!(!link.contains('$'));
    }
    assert_eq!(links, vec!["https://i.imgur.com/a.png", "x"]);
}

#[test]
fn validate_image_request_refuses_foreign_hosts() {
    let result = validate_image_request("Rem $ https://i.imgur.com/a.png $ https://example.com/b.png");
    assert_eq!(result, Err(INVALID_IMAGE_HOST));
    let result = validate_image_request("Rem $ https://i.imgur.com/a.png $ https://cdn.imgchest.com/files/b.png");
    assert_eq!(
        result,
        Ok(("Rem", vec!["https://i.imgur.com/a.png", "https://cdn.imgchest.com/files/b.png"]))
    );
    assert_eq!(validate_image_request("$ https://example.com"), Err(CHARACTER_NAME_NOT_PROVIDED));
    assert_eq!(validate_image_request("Rem $ "), Err(IMAGE_LINK_NOT_PROVIDED));
}

#[test]
fn fetch_character_maps_lookup_results() {
    let character = Character { id: 7, name: "Rem".to_string(), series_id: 3, image: "i".to_string() };
    let found = fetch_character(Ok(Some(character))).unwrap();
    assert_eq!(found.id, 7);
    assert_eq!(found.name, "Rem");
    assert_eq!(fetch_character(Ok(None)).unwrap_err(), CHARACTER_NOT_FOUND);
    assert_eq!(fetch_character(Err(DatabaseError)).unwrap_err(), DATABASE_QUERY_ERROR);
}

#[test]
fn after_lookup_steps() {
    assert!(matches!(after_lookup(Ok(Some(5u32))), LookupStep::Use(5)));
    assert!(matches!(after_lookup::<u32>(Ok(None)), LookupStep::Create));
    assert!(matches!(after_lookup::<u32>(Err(DatabaseError)), LookupStep::Fail));
}
