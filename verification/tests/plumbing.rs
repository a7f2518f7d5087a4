use fox::cli::ArgumentsParser;
use fox::cli::CliError;
use fox::net::http_code_to_string;
use fox::snips::Loader;
use fox::snips::confirm_choice;
use fox::snips::parse_usize;
use fox::snips::select_choice;
use fox::snips::select_choice_with_default;
use fox::snips::trim_input;
use fox::disk::relative_to;
use fox::disk::relative_paths;
use fox::discord::Embed;

fn words(items: &[&str]) -> Vec<String> {
    items.iter().map(|w| String::from(*w)).collect()
}

#[test]
fn parse_required_and_flag() {
    let parser = ArgumentsParser::new()
        .required(String::from("--out"))
        .optional(String::from("--verbose"), false);
    let args = parser.parse(words(&["--out", "target", "--verbose"])).unwrap();
    assert_eq!(args.get_value("--out"), Some(String::from("target")));
    assert!(args.has_flag("--verbose"));
    assert!(!args.has_flag("--quiet"));
    assert_eq!(args.get_value("--missing"), None);
}

#[test]
fn parse_missing_required() {
    let parser = ArgumentsParser::new().required(String::from("--out"));
    match parser.parse(words(&[])) {
        Err(CliError::MissingRequired(name)) => assert_eq!(name, "--out"),
        _ => panic!("expected a missing-required error"),
    }
}

#[test]
fn parse_missing_value() {
    let parser = ArgumentsParser::new().required(String::from("--out"));
    match parser.parse(words(&["--out"])) {
        Err(CliError::MissingValue(name)) => assert_eq!(name, "--out"),
        _ => panic!("expected a missing-value error"),
    }
}

#[test]
fn parse_duplicate_argument() {
    let parser = ArgumentsParser::new().optional(String::from("--v"), false);
    match parser.parse(words(&["--v", "--v"])) {
        Err(CliError::DuplicateArgument(name)) => assert_eq!(name, "--v"),
        _ => panic!("expected a duplicate-argument error"),
    }
}

#[test]
fn parse_unknown_words_pass_through() {
    let parser = ArgumentsParser::new().optional(String::from("--v"), false);
    let args = parser.parse(words(&["stray", "words"])).unwrap();
    assert!(!args.has_flag("stray"));
    assert_eq!(args.arguments.len(), 0);
}

#[test]
fn http_codes() {
    assert_eq!(http_code_to_string(200), "OK");
    assert_eq!(http_code_to_string(404), "Not Found");
    assert_eq!(http_code_to_string(418), "I'm a teapot");
    assert_eq!(http_code_to_string(511), "Network Authentication Required");
    assert_eq!(http_code_to_string(999), "Unknown");
    assert_eq!(http_code_to_string(0), "Unknown");
}

#[test]
fn loader_state() {
    let mut bar = Loader::new();
    assert_eq!(bar.amount, 0);
    assert_eq!(bar.width, 30);
    bar.set_amount(55);
    assert_eq!(bar.amount, 55);
    bar.set_amount(250);
    assert_eq!(bar.amount, 100);
}

#[test]
fn confirm_answers() {
    assert_eq!(confirm_choice("", true), Some(true));
    assert_eq!(confirm_choice("", false), Some(false));
    assert_eq!(confirm_choice("y\n", false), Some(true));
    assert_eq!(confirm_choice("YES", false), Some(true));
    assert_eq!(confirm_choice("n", true), Some(false));
    assert_eq!(confirm_choice("  No  ", true), Some(false));
    assert_eq!(confirm_choice("maybe", true), None);
}

#[test]
fn trimming() {
    assert_eq!(trim_input("  a b \n"), "a b");
    assert_eq!(trim_input("\t\r\n "), "");
    assert_eq!(trim_input("x"), "x");
}

#[test]
fn usize_parsing() {
    assert_eq!(parse_usize("0"), Some(0));
    assert_eq!(parse_usize("42"), Some(42));
    assert_eq!(parse_usize("+7"), Some(7));
    assert_eq!(parse_usize(""), None);
    assert_eq!(parse_usize("+"), None);
    assert_eq!(parse_usize("4x"), None);
    assert_eq!(parse_usize("-3"), None);
    assert_eq!(parse_usize("99999999999999999999999999999999"), None);
}

#[test]
fn selection_answers() {
    assert_eq!(select_choice("2\n", 3), Some(1));
    assert_eq!(select_choice("1", 3), Some(0));
    assert_eq!(select_choice("3", 3), Some(2));
    assert_eq!(select_choice("0", 3), None);
    assert_eq!(select_choice("4", 3), None);
    assert_eq!(select_choice("abc", 3), None);
    assert_eq!(select_choice_with_default("", 3, 1), Some(1));
    assert_eq!(select_choice_with_default("3", 3, 1), Some(2));
    assert_eq!(select_choice_with_default("9", 3, 1), None);
}

#[test]
fn relative_path_cases() {
    assert_eq!(relative_to("base", "base/a/b.txt"), Some(String::from("a/b.txt")));
    assert_eq!(relative_to("base/", "base/a.txt"), Some(String::from("a.txt")));
    assert_eq!(relative_to("base", "base"), Some(String::from("")));
    assert_eq!(relative_to("base", "basement/a"), None);
    assert_eq!(relative_to("other", "base/a"), None);
}

#[test]
fn relative_path_listing() {
    let paths = words(&["root/a.txt", "root/sub/b.txt", "elsewhere/c.txt", "root"]);
    let rel = relative_paths("root", &paths);
    assert_eq!(rel, words(&["a.txt", "sub/b.txt", ""]));
}

#[test]
fn embed_builder_fields() {
    let embed = Embed::new()
        .username(String::from("bot"))
        .content(String::from("hello"))
        .avatar_url(String::from("http://a/i.png"))
        .title(String::from("Title"))
        .description(String::from("Body"))
        .url(String::from("http://a"))
        .color(Embed::RED)
        .field(String::from("k"), String::from("v"), true)
        .field(String::from("k2"), String::from("v2"), false)
        .footer(String::from("foot"))
        .author(String::from("me"))
        .thumbnail(String::from("http://a/t.png"))
        .image(String::from("http://a/b.png"));
    assert_eq!(embed.username.as_deref(), Some("bot"));
    assert_eq!(embed.content.as_deref(), Some("hello"));
    assert_eq!(embed.avatar_url.as_deref(), Some("http://a/i.png"));
    assert_eq!(embed.embeds.len(), 1);
    let entry = &embed.embeds[0];
    assert_eq!(entry.title.as_deref(), Some("Title"));
    assert_eq!(entry.description.as_deref(), Some("Body"));
    assert_eq!(entry.url.as_deref(), Some("http://a"));
    assert_eq!(entry.color, Some(0xFF0000));
    assert_eq!(entry.fields.len(), 2);
    assert_eq!(entry.fields[0].name, "k");
    assert_eq!(entry.fields[0].value, "v");
    assert!(entry.fields[0].inline);
    assert_eq!(entry.fields[1].name, "k2");
    assert!(!entry.fields[1].inline);
    let footer = entry.footer.as_ref().unwrap();
    assert_eq!(footer.text, "foot");
    assert!(footer.icon_url.is_none());
    let author = entry.author.as_ref().unwrap();
    assert_eq!(author.name, "me");
    assert_eq!(entry.thumbnail.as_ref().unwrap().url, "http://a/t.png");
    assert_eq!(entry.image.as_deref(), Some("http://a/b.png"));
}

#[test]
fn embed_footer_and_author_variants() {
    let embed = Embed::default()
        .footer_with_icon(String::from("f"), String::from("icon"))
        .author_with_url(String::from("a"), String::from("link"));
    let entry = &embed.embeds[0];
    let footer = entry.footer.as_ref().unwrap();
    assert_eq!(footer.icon_url.as_deref(), Some("icon"));
    let author = entry.author.as_ref().unwrap();
    assert_eq!(author.url.as_deref(), Some("link"));
    assert!(author.icon_url.is_none());

    let embed2 = Embed::new().author_with_icon(String::from("a"), String::from("pic"));
    let author2 = embed2.embeds[0].author.as_ref().unwrap();
    assert_eq!(author2.icon_url.as_deref(), Some("pic"));
    assert!(author2.url.is_none());
}

#[test]
fn embed_colors() {
    assert_eq!(Embed::GREEN, 0x00FF00);
    assert_eq!(Embed::BLUE, 0x0000FF);
    assert_eq!(Embed::YELLOW, 0xFFFF00);
    assert_eq!(Embed::PURPLE, 0x800080);
    assert_eq!(Embed::ORANGE, 0xFFA500);
    assert_eq!(Embed::PINK, 0xFFC0CB);
}
