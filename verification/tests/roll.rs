use crown_bot::db::models::roll::EmbedRoll;
use crown_bot::utils::{
    parse_roll_embed, roll_from_message, serie_from_description, RollEmbed, EMPTY_ROLL_FIELDS,
    MUDAE_BOT_ID,
};

fn embed(name: Option<&str>, url: Option<&str>, description: Option<&str>) -> RollEmbed {
    RollEmbed {
        author_name: name.map(String::from),
        image_url: url.map(String::from),
        description: description.map(String::from),
    }
}

#[test]
fn serie_drops_last_line_and_emotes() {
    let description = "Re:Zero kara Hajimeru\nIsekai Seikatsu\n<:kakera:469835869059153940>\n**93**<:kakera:469835869059153940>";
    assert_eq!(serie_from_description(description), "Re:Zero kara Hajimeru Isekai Seikatsu");
}

#[test]
fn serie_removes_wish_protect_emoji() {
    let description = "Steins;Gate<:wishprotect:633217581725122570>\nClaim Rank: #12";
    assert_eq!(serie_from_description(description), "Steins;Gate");
}

#[test]
fn serie_of_single_line_is_empty() {
    assert_eq!(serie_from_description("Only line"), "");
}

#[test]
fn serie_handles_crlf_and_trailing_newline() {
    assert_eq!(serie_from_description("A\r\nB\r\nC\n"), "A B");
    assert_eq!(serie_from_description("\n\n\n"), " ");
}

#[test]
fn serie_matches_std_pipeline() {
    let token = "<:wishprotect:633217581725122570>";
    for d in [
        "a\nb\nc",
        "a\r\n<:x>\nb\n",
        "<:wishprotect:633217581725122570>\nx",
        "x\r",
        "\r\n",
        "<:wish<:wishprotect:633217581725122570>protect:633217581725122570>\nq\nz",
        "é\u{2028}ü\nlast",
    ] {
        let expected = d
            .replace(token, "")
            .lines()
            .take(d.lines().count() - 1)
            .filter(|&line| !line.starts_with("<:"))
            .collect::<Vec<_>>()
            .join(" ");
        assert_eq!(serie_from_description(d), expected, "{d:?}");
    }
}

#[test]
fn parse_roll_embed_reads_fields() {
    let roll = parse_roll_embed(&embed(
        Some("Rem"),
        Some("https://mudae.net/rem.png"),
        Some("Re:Zero\n<:kakera:1>\n**50**"),
    ))
    .unwrap();
    assert_eq!(roll.name, "Rem");
    assert_eq!(roll.serie, "Re:Zero");
    assert_eq!(roll.url, "https://mudae.net/rem.png");
}

#[test]
fn parse_roll_embed_refuses_missing_fields() {
    let err = |e: RollEmbed| parse_roll_embed(&e).err();
    assert_eq!(err(embed(None, Some("u"), Some("S\nx"))), Some(EMPTY_ROLL_FIELDS));
    assert_eq!(err(embed(Some("n"), None, Some("S\nx"))), Some(EMPTY_ROLL_FIELDS));
    assert_eq!(err(embed(Some("n"), Some("u"), None)), Some(EMPTY_ROLL_FIELDS));
    assert_eq!(err(embed(Some("n"), Some("u"), Some("only one line"))), Some(EMPTY_ROLL_FIELDS));
    assert_eq!(err(embed(Some(""), Some("u"), Some("S\nx"))), Some(EMPTY_ROLL_FIELDS));
}

#[test]
fn roll_from_message_only_reads_mudae() {
    let embeds = vec![embed(Some("Rem"), Some("u"), Some("S\nx"))];
    let roll: EmbedRoll = roll_from_message(MUDAE_BOT_ID, &embeds).unwrap();
    assert_eq!(roll.serie, "S");
    assert!(roll_from_message(MUDAE_BOT_ID + 1, &embeds).is_none());
    assert!(roll_from_message(MUDAE_BOT_ID, &Vec::new()).is_none());
    let bad = vec![embed(None, Some("u"), Some("S\nx"))];
    assert!(roll_from_message(MUDAE_BOT_ID, &bad).is_none());
}

#[test]
fn serie_has_no_line_breaks() {
    let s = serie_from_description("a\nb\r\nc\n\nd\nlast");
    assert!(!s.contains('\n'));
    assert_eq!(s, "a b c  d");
}
