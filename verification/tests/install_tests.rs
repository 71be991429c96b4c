use mdbook_lang::install::{
    add_additional_files, add_preprocessor, additional, has_file, has_preprocessor, install_book_toml,
    install_config, insert_additional, parse_book_toml, InstallError,
};
use toml_edit::DocumentMut;

fn doc(text: &str) -> DocumentMut {
    text.parse::<DocumentMut>().expect("valid TOML")
}

#[test]
fn install_into_empty_book() {
    let out = install_book_toml("[book]\ntitle = \"T\"\n").expect("installable").expect("changed");
    let d = doc(&out);
    assert_eq!(d["preprocessor"]["lang"]["command"].as_str(), Some("mdbook-lang"));
    assert_eq!(
        d["preprocessor"]["lang"]["server"].as_str(),
        Some("http://127.0.0.1:3333/api/v1/build-code")
    );
    assert_eq!(d["preprocessor"]["lang"]["cpp-enable"].as_bool(), Some(true));
    assert_eq!(d["preprocessor"]["lang"]["scheme-enable"].as_bool(), Some(true));
    assert_eq!(d["preprocessor"]["lang"]["disable-menu"].as_bool(), Some(false));
    assert_eq!(d["preprocessor"]["lang"]["ace-strict"].as_bool(), Some(true));
    let js: Vec<&str> = d["output"]["html"]["additional-js"].as_array().unwrap().iter().map(|v| v.as_str().unwrap()).collect();
    assert_eq!(js, vec!["disable-devtool.js", "lang.js", "jquery.js"]);
    let css: Vec<&str> = d["output"]["html"]["additional-css"].as_array().unwrap().iter().map(|v| v.as_str().unwrap()).collect();
    assert_eq!(css, vec!["lang.css"]);
    assert_eq!(d["book"]["title"].as_str(), Some("T"));
}

#[test]
fn install_twice_changes_nothing() {
    let once = install_book_toml("").expect("installable").expect("changed");
    assert_eq!(install_book_toml(&once), Ok(None));
}

#[test]
fn install_keeps_existing_files() {
    let text = "[output.html]\nadditional-js = [\"theme/lang.js\"]\nadditional-css = [\"lang.css\"]\n\n[preprocessor.lang]\ncommand = \"mdbook-lang\"\n";
    let out = install_book_toml(text).expect("installable").expect("changed");
    let d = doc(&out);
    let js: Vec<&str> = d["output"]["html"]["additional-js"].as_array().unwrap().iter().map(|v| v.as_str().unwrap()).collect();
    assert_eq!(js, vec!["theme/lang.js", "disable-devtool.js", "jquery.js"]);
    assert!(d["preprocessor"]["lang"].get("cpp-enable").is_none());
}

#[test]
fn install_errors() {
    assert_eq!(install_book_toml("[book"), Err(InstallError::InvalidToml));
    assert_eq!(install_book_toml("output = 3\n"), Err(InstallError::UnsupportedLayout));
    assert_eq!(install_book_toml("[output.html]\nadditional-js = \"x\"\n"), Err(InstallError::UnsupportedLayout));
    assert_eq!(install_book_toml("preprocessor = { lang = 1 }\n"), Err(InstallError::UnsupportedLayout));
}

#[test]
fn has_file_checks() {
    assert!(!has_file(&None, "lang.js"));
    assert!(has_file(&Some(vec![Some("a/lang.js".to_string())]), "lang.js"));
    assert!(!has_file(&Some(vec![Some("lang.js.map".to_string())]), "lang.js"));
    assert!(has_file(&Some(vec![None]), "lang.js"));
    assert!(!has_file(&Some(vec![]), "lang.js"));
}

#[test]
fn editing_steps() {
    let mut d = doc("");
    assert!(!has_preprocessor(&d));
    add_preprocessor(&mut d);
    assert!(has_preprocessor(&d));
    assert_eq!(additional(&d, "js"), None);
    insert_additional(&mut d, "js", "a.js");
    assert_eq!(additional(&d, "js"), Some(vec![Some("a.js".to_string())]));
    assert!(add_additional_files(&mut d));
    assert!(!add_additional_files(&mut d));
    assert!(!install_config(&mut d));
}

#[test]
fn inline_lang_table_is_set_again() {
    let out = install_book_toml("[preprocessor]\nlang = { command = \"x\" }\n").expect("installable").expect("changed");
    let d = doc(&out);
    assert_eq!(d["preprocessor"]["lang"]["command"].as_str(), Some("mdbook-lang"));
}

#[test]
fn test_install() {
    let updated = install_book_toml("").expect("installable").expect("changed");
    let d = doc(&updated);
    assert!(d["preprocessor"]["lang"].is_table());
    assert!(d["output"]["html"]["additional-js"].is_array());
    assert!(d["output"]["html"]["additional-css"].is_array());
}

#[test]
fn parse_book_toml_results() {
    assert_eq!(parse_book_toml("[book").err(), Some(InstallError::InvalidToml));
    let d = parse_book_toml("[book]\ntitle = \"T\"\n").expect("valid TOML");
    assert_eq!(d["book"]["title"].as_str(), Some("T"));
}

#[test]
fn nothing_to_add_leaves_document_as_it_was() {
    let mut d = parse_book_toml(
        "[output.html]\nadditional-js = [\"jquery.js\", \"x/disable-devtool.js\", \"lang.js\"]\nadditional-css = [\"lang.css\"]\n",
    )
    .expect("valid TOML");
    let before = d.to_string();
    assert!(!add_additional_files(&mut d));
    assert_eq!(d.to_string(), before);
}

#[test]
fn settings_keep_other_keys_of_the_table() {
    let mut d = parse_book_toml("[preprocessor.lang]\nextra = 7\ncommand = \"old\"\n").expect("valid TOML");
    add_preprocessor(&mut d);
    assert_eq!(d["preprocessor"]["lang"]["extra"].as_integer(), Some(7));
    assert_eq!(d["preprocessor"]["lang"]["command"].as_str(), Some("mdbook-lang"));
    assert_eq!(d["preprocessor"]["lang"]["pkl-enable"].as_bool(), Some(true));
}

#[test]
fn settings_go_into_an_inline_table() {
    let mut d = parse_book_toml("[preprocessor]\nlang = { other = true }\n").expect("valid TOML");
    add_preprocessor(&mut d);
    assert!(d["preprocessor"]["lang"].is_inline_table());
    assert_eq!(d["preprocessor"]["lang"]["other"].as_bool(), Some(true));
    assert_eq!(d["preprocessor"]["lang"]["editable"].as_bool(), Some(true));
}

#[test]
fn install_keeps_numbers_and_dates() {
    let out = install_book_toml("[book]\nsize = 12\nwhen = 1979-05-27\nlist = [1, 2]\n").expect("installable").expect("changed");
    let d = parse_book_toml(&out).expect("valid TOML");
    assert_eq!(d["book"]["size"].as_integer(), Some(12));
    assert_eq!(d["book"]["when"].as_datetime().map(|t| t.to_string()), Some("1979-05-27".to_string()));
    assert_eq!(d["book"]["list"].as_array().map(|a| a.len()), Some(2));
}

#[test]
fn install_keeps_comments_and_formatting_of_untouched_parts() {
    let text = "# my book\n[book]\ntitle = 'T'   # the title\n";
    let out = install_book_toml(text).expect("installable").expect("changed");
    assert!(out.starts_with(text));
    assert_eq!(install_book_toml(&out), Ok(None));
}
