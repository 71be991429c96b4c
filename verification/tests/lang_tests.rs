use mdbook_lang::config::{get_config_bool, get_config_string, ConfigEntry, ConfigValue, LangConfig};
use mdbook_lang::lang::{get_asset, map_lang, parse_options, render_block, render_langs, render_pieces, Lang};

const TEMPLATE: &str = "{lang}|{codeblock}|{editable}|[norun]|[lines]|{uuid}|{restfulserver}|{auto}|{menu}|{clear}|{select}|{copy}|{cut}|{paste}|{strict}";

fn entry_bool(key: &str, v: bool) -> ConfigEntry {
    ConfigEntry { key: key.to_string(), value: ConfigValue::Bool(v) }
}

fn entry_str(key: &str, v: &str) -> ConfigEntry {
    ConfigEntry { key: key.to_string(), value: ConfigValue::Str(v.to_string()) }
}

fn cpp_config() -> LangConfig {
    LangConfig { entries: vec![entry_bool("cpp-enable", true)] }
}

fn chars(s: &str) -> Vec<char> {
    s.chars().collect()
}

fn text(v: &[char]) -> String {
    v.iter().collect()
}

#[test]
fn lang_new_and_name() {
    let lang = Lang::new();
    assert_eq!(lang.name(), "mdbook-lang");
    assert!(lang.supports_renderer("html"));
    assert!(!lang.supports_renderer("markdown"));
}

#[test]
fn map_lang_aliases() {
    assert_eq!(map_lang("lisp"), "scheme");
    assert_eq!(map_lang("scheme"), "scheme");
    assert_eq!(map_lang("py"), "python");
    assert_eq!(map_lang("ts"), "typescript");
    assert_eq!(map_lang("js"), "javascript");
    assert_eq!(map_lang("java"), "java");
    assert_eq!(map_lang("c++"), "cpp");
    assert_eq!(map_lang("c"), "cpp");
    assert_eq!(map_lang("cpp"), "cpp");
    assert_eq!(map_lang("go"), "go");
    assert_eq!(map_lang("pkl"), "pkl");
    assert_eq!(map_lang("rust"), "rust");
    assert_eq!(map_lang(""), "");
}

#[test]
fn map_lang_is_idempotent_on_examples() {
    for raw in ["lisp", "py", "ts", "js", "c", "c++", "rust", "go"] {
        let once = map_lang(raw);
        assert_eq!(map_lang(once), once);
    }
}

#[test]
fn parse_options_splits_and_trims() {
    assert_eq!(parse_options(" editable , norun"), vec!["editable".to_string(), "norun".to_string()]);
    assert_eq!(parse_options(""), vec!["".to_string()]);
    assert_eq!(parse_options("a,,b,"), vec!["a", "", "b", ""]);
    assert_eq!(parse_options("\t x \u{3000}"), vec!["x"]);
}

#[test]
fn get_asset_finds_first() {
    let files: [(&str, &[u8]); 3] = [("a.css", b"one"), ("lang.html", b"two"), ("lang.html", b"three")];
    assert_eq!(get_asset(&files, "lang.html"), "two");
    assert_eq!(get_asset(&files, "a.css"), "one");
    let bad: [(&str, &[u8]); 1] = [("x", &[0x66, 0xff, 0x6f])];
    assert_eq!(get_asset(&bad, "x"), "f\u{fffd}o");
}

#[test]
fn config_lookup_defaults() {
    let config = LangConfig {
        entries: vec![entry_bool("editable", true), entry_str("server", "http://h/x"), entry_bool("editable", false)],
    };
    assert!(get_config_bool(&config, "editable", false));
    assert!(!get_config_bool(&config, "missing", false));
    assert!(get_config_bool(&config, "server", true));
    assert_eq!(get_config_string(&config, "server", "d"), "http://h/x");
    assert_eq!(get_config_string(&config, "editable", "d"), "d");
}

#[test]
fn render_block_fills_template() {
    let out = render_block("cpp", "", "  int main() {}  ", &cpp_config(), &chars(TEMPLATE), "ID");
    assert_eq!(
        text(&out),
        "cpp|```cpp\nint main() {}\n```|||138|ID|http://127.0.0.1:3333/api/v1/build-code||false|false|false|false|false|false|false"
    );
}

#[test]
fn render_block_options_and_settings() {
    let config = LangConfig {
        entries: vec![
            entry_bool("python-enable", true),
            entry_str("server", "noserver please"),
            entry_str("python.server", "http://py/build"),
            entry_bool("disable-devtool-auto", true),
            entry_bool("ace-strict", true),
            entry_bool("editable", true),
        ],
    };
    let out = render_block("py", " norun", "print(1)\nprint(2)", &config, &chars(TEMPLATE), "u");
    assert_eq!(
        text(&out),
        "python|```python\nprint(1)\nprint(2)\n```|editable|norun|161|u|http://py/build|disable-devtool-auto|false|false|false|false|false|false|true"
    );
    let out = render_block("py", "editable=false", "x", &config, &chars(TEMPLATE), "u");
    assert!(text(&out).starts_with("python|```python\nx\n```||"));
}

#[test]
fn render_block_disabled_or_nolang_stays_fenced() {
    let out = render_block("java", "", " class A {} ", &cpp_config(), &chars(TEMPLATE), "u");
    assert_eq!(text(&out), "```java\nclass A {}\n```");
    let out = render_block("c", "nolang", "x", &cpp_config(), &chars(TEMPLATE), "u");
    assert_eq!(text(&out), "```cpp\nx\n```");
}

#[test]
fn render_pieces_interleaves() {
    let pieces = vec!["A".to_string(), "B".to_string(), "C".to_string()];
    let caps = vec![
        vec![Some("whole".to_string()), Some("cpp".to_string()), Some("".to_string()), Some("x".to_string())],
        vec![Some("whole".to_string()), Some("go".to_string()), Some("".to_string()), Some("y".to_string())],
    ];
    let ids = vec!["1".to_string(), "2".to_string()];
    let out = render_pieces(&pieces, &caps, &cpp_config(), &chars("<{uuid}:{lang}>"), &ids);
    assert_eq!(out, "A<1:cpp>B```go\ny\n```C");
    let out = render_pieces(&vec![], &caps, &cpp_config(), &chars("t"), &ids);
    assert_eq!(out, "");
}

#[test]
fn render_langs_without_blocks_is_unchanged() {
    let files: [(&str, &[u8]); 1] = [("lang.html", b"T")];
    let (found, out) = render_langs("# Title\n\n```rust\nfn main() {}\n```\n", &cpp_config(), &files);
    assert!(!found);
    assert_eq!(out, "# Title\n\n```rust\nfn main() {}\n```\n");
}

#[test]
fn render_langs_renders_blocks() {
    let files: [(&str, &[u8]); 1] = [("lang.html", b"[{uuid}]")];
    let content = "before\n```cpp,editable\nint x;\n```\nafter\n```java\nclass A{}\n```\n";
    let (found, out) = render_langs(content, &cpp_config(), &files);
    assert!(found);
    assert!(out.starts_with("before\n["));
    let id = &out["before\n[".len().."before\n[".len() + 36];
    assert_eq!(id.len(), 36);
    assert_eq!(&id[14..15], "4");
    assert!(out.ends_with("]\nafter\n```java\nclass A{}\n```\n"));
}

#[test]
fn lang_run_renders_chapters() {
    let files: [(&str, &[u8]); 1] = [("lang.html", b"P")];
    let mut chapters = vec!["plain".to_string(), "```c\nint y;\n```".to_string()];
    Lang::new().run(&cpp_config(), &files, &mut chapters);
    assert_eq!(chapters, vec!["plain".to_string(), "P".to_string()]);
}


const FLAGS: &str = "<{lang}|{editable}|[norun]>";

fn example_config() -> LangConfig {
    LangConfig {
        entries: vec![
            entry_bool("cpp-enable", true),
            entry_bool("python-enable", true),
            entry_bool("java-enable", true),
            entry_bool("scheme-enable", true),
            entry_bool("pkl-enable", true),
            entry_bool("editable", true),
        ],
    }
}

#[test]
fn example_chapter_fences() {
    let files: [(&str, &[u8]); 1] = [("lang.html", FLAGS.as_bytes())];
    let cases: [(&str, &str); 8] = [
        ("```c++,editable=false\nint main(){}\n```", "<cpp||>"),
        ("```c++,norun\nint main(){}\n```", "<cpp|editable|norun>"),
        ("```c++, editable,norun\nint main(){}\n```", "<cpp|editable|norun>"),
        ("```c++,nolang\nint main(){}\n```", "```cpp\nint main(){}\n```"),
        ("```python, editable=true\nprint(1)\n```", "<python|editable|>"),
        ("```java, editable\nclass A{}\n```", "<java|editable|>"),
        ("```lisp\n(display 1)\n```", "<scheme|editable|>"),
        ("```javascript\nconsole.log(1)\n```", "```javascript\nconsole.log(1)\n```"),
    ];
    for (content, expected) in cases {
        let (found, out) = render_langs(content, &example_config(), &files);
        assert!(found, "{}", content);
        assert_eq!(out, expected, "{}", content);
    }
}

#[test]
fn fence_with_crlf_line_ending() {
    let files: [(&str, &[u8]); 1] = [("lang.html", FLAGS.as_bytes())];
    let (found, out) = render_langs("```py,norun\r\nx = 1\r\n```", &example_config(), &files);
    assert!(found);
    assert_eq!(out, "<python|editable|norun>");
}

#[test]
fn rendering_without_playgrounds_repeats_exactly() {
    let files: [(&str, &[u8]); 1] = [("lang.html", b"[{uuid}]")];
    let content = "a\n```java\nclass A{}\n```\nb\n```cpp,nolang\nint x;\n```\n";
    let first = render_langs(content, &cpp_config(), &files);
    let second = render_langs(content, &cpp_config(), &files);
    assert_eq!(first, second);
    assert!(first.0);
    assert_eq!(first.1, "a\n```java\nclass A{}\n```\nb\n```cpp\nint x;\n```\n");
}

#[test]
fn rendering_playgrounds_draws_fresh_identifiers() {
    let files: [(&str, &[u8]); 1] = [("lang.html", b"{uuid}")];
    let first = render_langs("```cpp\nint x;\n```", &cpp_config(), &files);
    let second = render_langs("```cpp\nint x;\n```", &cpp_config(), &files);
    assert_eq!(first.1.len(), 36);
    assert_ne!(first.1, second.1);
}

#[test]
fn options_trimmed_of_unicode_whitespace() {
    assert_eq!(parse_options("\u{3000}editable\u{a0},\u{2009}norun\n"), vec!["editable".to_string(), "norun".to_string()]);
}
