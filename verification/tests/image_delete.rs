use crown_bot::commands::mudae::image_delete::{parse_command_arguments, plan_image_removal};
use crown_bot::constants::{CHARACTER_NAME_NOT_PROVIDED, POSITION_OUT_OF_LIMIT};

#[test]
fn image_delete_test_parse_command_arguments() {
    let result = parse_command_arguments("CharacterName $ 1$2");

    assert_eq!(result, Ok(("CharacterName", vec![1, 2])));
}

#[test]
fn image_delete_test_parse_command_arguments_is_no_character() {
    let result = parse_command_arguments("$1");
    assert_eq!(result, Err(CHARACTER_NAME_NOT_PROVIDED));

    let result = parse_command_arguments("$");
    assert_eq!(result, Err(CHARACTER_NAME_NOT_PROVIDED));
    let result = parse_command_arguments("");
    assert_eq!(result, Err(CHARACTER_NAME_NOT_PROVIDED));
}

#[test]
fn image_delete_test_parse_command_arguments_is_no_link() {
    let result = parse_command_arguments("CharacterName$$$");
    assert_eq!(result, Err("No position provided"));

    let result = parse_command_arguments("CharacterName");
    assert_eq!(result, Err("No position provided"));
}

#[test]
fn positions_parse_like_u32_from_str() {
    let result = parse_command_arguments("Rem $ +3 $ 007 $ -1 $ x $ 4294967295 $ 4294967296 $ + $ 1 2");
    assert_eq!(result, Ok(("Rem", vec![3, 7, 4294967295])));
    for text in ["+3", "007", "-1", "x", "4294967295", "4294967296", "+", "1 2", "", "٣"] {
        let expected = text.parse::<u32>().ok();
        let got = parse_command_arguments(&format!("Rem ${}", text)).ok().map(|(_, p)| p[0]);
        assert_eq!(got, expected, "{text}");
    }
}

#[test]
fn plan_image_removal_picks_positions() {
    let images: Vec<String> = vec!["a".into(), "b".into(), "c".into()];
    assert_eq!(plan_image_removal(&images, &vec![1, 3]), Ok(vec!["a".to_string(), "c".to_string()]));
    assert_eq!(plan_image_removal(&images, &vec![0, 2, 2]), Ok(vec!["b".to_string(), "b".to_string()]));
    assert_eq!(plan_image_removal(&images, &vec![0]), Ok(Vec::new()));
    assert_eq!(plan_image_removal(&images, &vec![3, 0, 1]), Ok(vec!["c".to_string(), "a".to_string()]));
    assert_eq!(plan_image_removal(&images, &vec![4]), Err(POSITION_OUT_OF_LIMIT));
    assert_eq!(plan_image_removal(&Vec::new(), &vec![0]), Ok(Vec::new()));
    assert_eq!(plan_image_removal(&Vec::new(), &vec![1]), Err(POSITION_OUT_OF_LIMIT));
}
