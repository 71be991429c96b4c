//! The preprocessor: recognising fenced code blocks of the supported
//! languages in a chapter and rendering each one as a playground.
use vstd::prelude::*;
use vstd::utf8::*;
use crate::config::{config_bool, config_str, get_config_bool, get_config_string, lookup, ConfigValue, LangConfig};
use crate::text::{
    append_chars, bool_chars, bool_text, chars_of, contains_chars, contains_text,
    count_lines, decimal, line_count, push_decimal, replace_all, replace_chars, split_chars,
    split_on, str_equal, string_of, trim, trim_chars, lemma_replace_absent, occurs_at,
};

verus! {

/// The mdBook preprocessor that turns fenced code blocks into playgrounds.
pub struct Lang;

impl Lang {
    /// A new preprocessor.
    pub fn new() -> (res: Lang)
        ensures
            res == Lang,
    {
        Lang
    }
}

/// The canonical name of a language tag of a fenced code block:
/// aliases collapse to one name, any other tag stays as it is.
pub open spec fn spec_map_lang(raw: Seq<char>) -> Seq<char> {
    if raw == "lisp"@ || raw == "scheme"@ {
        "scheme"@
    } else if raw == "py"@ || raw == "python"@ {
        "python"@
    } else if raw == "ts"@ || raw == "typescript"@ {
        "typescript"@
    } else if raw == "js"@ || raw == "javascript"@ {
        "javascript"@
    } else if raw == "java"@ {
        "java"@
    } else if raw == "cpp"@ || raw == "c++"@ || raw == "c"@ {
        "cpp"@
    } else if raw == "go"@ {
        "go"@
    } else if raw == "pkl"@ {
        "pkl"@
    } else {
        raw
    }
}

/// The canonical name of the language tag `raw_lang`.
pub fn map_lang<'a>(raw_lang: &'a str) -> (res: &'a str)
    ensures
        res@ == spec_map_lang(raw_lang@),
{
    if str_equal(raw_lang, "lisp") || str_equal(raw_lang, "scheme") {
        "scheme"
    } else if str_equal(raw_lang, "py") || str_equal(raw_lang, "python") {
        "python"
    } else if str_equal(raw_lang, "ts") || str_equal(raw_lang, "typescript") {
        "typescript"
    } else if str_equal(raw_lang, "js") || str_equal(raw_lang, "javascript") {
        "javascript"
    } else if str_equal(raw_lang, "java") {
        "java"
    } else if str_equal(raw_lang, "cpp") || str_equal(raw_lang, "c++") || str_equal(raw_lang, "c") {
        "cpp"
    } else if str_equal(raw_lang, "go") {
        "go"
    } else if str_equal(raw_lang, "pkl") {
        "pkl"
    } else {
        raw_lang
    }
}

/// The views of a sequence of strings.
pub open spec fn string_views(v: Seq<String>) -> Seq<Seq<char>> {
    v.map_values(|s: String| s@)
}

/// The options after the language tag of a fence: the comma-separated
/// pieces, each trimmed.
pub open spec fn spec_parse_options(s: Seq<char>) -> Seq<Seq<char>> {
    split_on(s, ',').map_values(|p: Seq<char>| trim(p))
}

/// Splits the option text of a fence at commas and trims each piece.
pub fn parse_options(options_str: &str) -> (res: Vec<String>)
    ensures
        string_views(res@) == spec_parse_options(options_str@),
{
    let chars = chars_of(options_str);
    let pieces = split_chars(&chars, ',');
    let ghost target = spec_parse_options(options_str@);
    let mut res: Vec<String> = Vec::new();
    let mut i: usize = 0;
    while i < pieces.len()
        invariant
            i <= pieces.len(),
            pieces@.len() == split_on(chars@, ',').len(),
            forall|k: int| 0 <= k < pieces@.len() ==> #[trigger] pieces@[k]@ == split_on(chars@, ',')[k],
            chars@ == options_str@,
            target == spec_parse_options(options_str@),
            string_views(res@) == target.take(i as int),
        decreases pieces.len() - i,
    {
        let t = trim_chars(&pieces[i]);
        let s = string_of(&t);
        let ghost before = res@;
        res.push(s);
        assert(target[i as int] == trim(split_on(chars@, ',')[i as int]));
        assert(string_views(res@) =~= string_views(before).push(s@));
        assert(string_views(res@) =~= target.take(i + 1));
        i += 1;
    }
    assert(target.take(pieces.len() as int) =~= target);
    res
}

/// Whether `name` names one of the `files`.
pub open spec fn has_asset(files: Seq<(&str, &[u8])>, name: Seq<char>) -> bool {
    exists|i: int| 0 <= i < files.len() && (#[trigger] files[i]).0@ == name
}

/// The content of the first of the `files` named `name`.
pub open spec fn asset_content(files: Seq<(&str, &[u8])>, name: Seq<char>) -> Seq<u8>
    decreases files.len(),
{
    if files.len() == 0 {
        Seq::empty()
    } else if files[0].0@ == name {
        files[0].1@
    } else {
        asset_content(files.drop_first(), name)
    }
}

/// The text that `String::from_utf8_lossy` makes of `bytes`: their decoding,
/// with each invalid sequence replaced by U+FFFD.
pub uninterp spec fn utf8_lossy(bytes: Seq<u8>) -> Seq<char>;

/// Decodes bytes as UTF-8, replacing invalid sequences (std
/// `String::from_utf8_lossy`). The contract claims that the result is the
/// named decoding of the bytes, and that valid UTF-8 decodes exactly.
#[verifier::external_body]
fn utf8_lossy_string(bytes: &[u8]) -> (res: String)
    ensures
        res@ == utf8_lossy(bytes@),
        valid_utf8(bytes@) ==> res@ == decode_utf8(bytes@),
{
    String::from_utf8_lossy(bytes).into_owned()
}

/// The text of the asset file `name` among `files`.
pub fn get_asset(files: &[(&str, &[u8])], name: &str) -> (res: String)
    requires
        has_asset(files@, name@),
    ensures
        res@ == utf8_lossy(asset_content(files@, name@)),
{
    let mut i: usize = 0;
    assert(files@.skip(0) =~= files@);
    while i < files.len()
        invariant
            i <= files.len(),
            has_asset(files@.skip(i as int), name@),
            asset_content(files@, name@) == asset_content(files@.skip(i as int), name@),
        decreases files.len() - i,
    {
        let (item_name, content) = files[i];
        assert(files@.skip(i as int)[0] == files@[i as int]);
        assert(files@.skip(i as int).drop_first() =~= files@.skip(i + 1));
        if str_equal(item_name, name) {
            return utf8_lossy_string(content);
        }
        let ghost w = choose|k: int| 0 <= k < files@.skip(i as int).len() && (#[trigger] files@.skip(i as int)[k]).0@ == name@;
        assert(w != 0);
        assert(files@.skip(i + 1)[w - 1] == files@.skip(i as int)[w]);
        i += 1;
    }
    assert(false);
    String::new()
}

/// The address of the build server that a playground posts code to when the
/// configuration names none.
pub open spec fn default_server() -> Seq<char> {
    "http://127.0.0.1:3333/api/v1/build-code"@
}

/// A fenced code block of language `lang` holding `code`.
pub open spec fn fence_text(lang: Seq<char>, code: Seq<char>) -> Seq<char> {
    "```"@ + lang + "\n"@ + code + "\n```"@
}

/// The build server of a `lang` playground: the `server` setting, unless it
/// is missing or mentions `noserver`, in which case the `<lang>.server`
/// setting, or the default address.
pub open spec fn block_server(config: LangConfig, lang: Seq<char>) -> Seq<char> {
    let s = config_str(config, "server"@, "noserver"@);
    if contains_text(s, "noserver"@) {
        config_str(config, lang + ".server"@, default_server())
    } else {
        s
    }
}

/// The editor height of a playground for `codeblock`: 23 pixels per line,
/// with three lines to spare.
pub open spec fn block_height(codeblock: Seq<char>) -> nat {
    (line_count(codeblock) + 3) * 23
}

/// The text standing for an enabled flag, or nothing.
pub open spec fn flag_text(b: bool, word: Seq<char>) -> Seq<char> {
    if b { word } else { Seq::empty() }
}

/// The playground template with every placeholder filled in.
pub open spec fn fill_template(
    template: Seq<char>,
    config: LangConfig,
    lang: Seq<char>,
    codeblock: Seq<char>,
    editable: bool,
    norun: bool,
    uuid: Seq<char>,
) -> Seq<char> {
    let t = replace_all(template, "{lang}"@, lang);
    let t = replace_all(t, "{codeblock}"@, codeblock);
    let t = replace_all(t, "{editable}"@, flag_text(editable, "editable"@));
    let t = replace_all(t, "[norun]"@, flag_text(norun, "norun"@));
    let t = replace_all(t, "[lines]"@, decimal(block_height(codeblock)));
    let t = replace_all(t, "{uuid}"@, uuid);
    let t = replace_all(t, "{restfulserver}"@, block_server(config, lang));
    let t = replace_all(
        t,
        "{auto}"@,
        flag_text(config_bool(config, "disable-devtool-auto"@, false), "disable-devtool-auto"@),
    );
    let t = replace_all(t, "{menu}"@, bool_text(config_bool(config, "disable-menu"@, false)));
    let t = replace_all(t, "{clear}"@, bool_text(config_bool(config, "clear-log"@, false)));
    let t = replace_all(t, "{select}"@, bool_text(config_bool(config, "disable-select"@, false)));
    let t = replace_all(t, "{copy}"@, bool_text(config_bool(config, "disable-copy"@, false)));
    let t = replace_all(t, "{cut}"@, bool_text(config_bool(config, "disable-cut"@, false)));
    let t = replace_all(t, "{paste}"@, bool_text(config_bool(config, "disable-paste"@, false)));
    replace_all(t, "{strict}"@, bool_text(config_bool(config, "ace-strict"@, false)))
}

/// What one fenced code block becomes, given the text of its language tag,
/// of its options and of its code, the configuration, the playground
/// template and the identifier of the playground. A block whose language is
/// not enabled, or that is marked `nolang`, stays a fenced code block (with
/// its tag made canonical and its code trimmed); any other becomes the
/// filled-in template.
pub open spec fn render_block_spec(
    lang_text: Seq<char>,
    options_text: Seq<char>,
    code_text: Seq<char>,
    config: LangConfig,
    template: Seq<char>,
    uuid: Seq<char>,
) -> Seq<char> {
    let code = trim(code_text);
    let lang = spec_map_lang(trim(lang_text));
    let codeblock = fence_text(lang, code);
    let options = spec_parse_options(options_text);
    let editable = !options.contains("editable=false"@) && (options.contains("editable"@)
        || config_bool(config, "editable"@, false));
    let norun = options.contains("norun"@);
    let enable = config_bool(config, lang + "-enable"@, false);
    if !enable || options.contains("nolang"@) {
        codeblock
    } else {
        fill_template(template, config, lang, codeblock, editable, norun, uuid)
    }
}

/// Whether one of `options` is `word`.
fn options_contain(options: &Vec<String>, word: &str) -> (res: bool)
    ensures
        res == string_views(options@).contains(word@),
{
    let mut i: usize = 0;
    while i < options.len()
        invariant
            i <= options@.len(),
            forall|k: int| 0 <= k < i ==> string_views(options@)[k] != word@,
        decreases options@.len() - i,
    {
        if str_equal(options[i].as_str(), word) {
            assert(string_views(options@)[i as int] == word@);
            return true;
        }
        i += 1;
    }
    false
}

/// `t` with `pat` replaced by `rep` throughout.
fn replace_in(t: Vec<char>, pat: &str, rep: &[char]) -> (res: Vec<char>)
    ensures
        res@ == replace_all(t@, pat@, rep@),
{
    let p = chars_of(pat);
    if p.len() == 0 {
        t
    } else {
        replace_chars(&t, &p, rep)
    }
}

/// The concatenation of two character sequences.
fn concat(a: &[char], b: &[char]) -> (res: Vec<char>)
    ensures
        res@ == a@ + b@,
{
    let mut res: Vec<char> = Vec::new();
    append_chars(&mut res, a);
    append_chars(&mut res, b);
    assert(res@ =~= a@ + b@);
    res
}

/// The text of the boolean setting `key` (false where it is missing).
fn bool_setting(config: &LangConfig, key: &str) -> (res: Vec<char>)
    ensures
        res@ == bool_text(config_bool(*config, key@, false)),
{
    bool_chars(get_config_bool(config, key, false))
}

/// The playground template with every placeholder filled in.
fn fill_template_exec(
    template: &[char],
    config: &LangConfig,
    lang: &[char],
    codeblock: &[char],
    editable: bool,
    norun: bool,
    uuid: &str,
) -> (res: Vec<char>)
    ensures
        res@ == fill_template(template@, *config, lang@, codeblock@, editable, norun, uuid@),
{
    let mut t: Vec<char> = Vec::new();
    append_chars(&mut t, template);
    assert(t@ =~= template@);
    let t = replace_in(t, "{lang}", lang);
    let t = replace_in(t, "{codeblock}", codeblock);
    let word = if editable { chars_of("editable") } else { Vec::new() };
    let t = replace_in(t, "{editable}", &word);
    let word = if norun { chars_of("norun") } else { Vec::new() };
    let t = replace_in(t, "[norun]", &word);
    let lines_count = count_lines(codeblock);
    let height: u128 = (lines_count as u128 + 3) * 23;
    let mut digits: Vec<char> = Vec::new();
    push_decimal(&mut digits, height);
    assert(digits@ =~= decimal(block_height(codeblock@)));
    let t = replace_in(t, "[lines]", &digits);
    let id = chars_of(uuid);
    let t = replace_in(t, "{uuid}", &id);
    let server = block_server_exec(config, lang);
    let t = replace_in(t, "{restfulserver}", &server);
    let auto = get_config_bool(config, "disable-devtool-auto", false);
    let word = if auto { chars_of("disable-devtool-auto") } else { Vec::new() };
    let t = replace_in(t, "{auto}", &word);
    let t = replace_in(t, "{menu}", &bool_setting(config, "disable-menu"));
    let t = replace_in(t, "{clear}", &bool_setting(config, "clear-log"));
    let t = replace_in(t, "{select}", &bool_setting(config, "disable-select"));
    let t = replace_in(t, "{copy}", &bool_setting(config, "disable-copy"));
    let t = replace_in(t, "{cut}", &bool_setting(config, "disable-cut"));
    let t = replace_in(t, "{paste}", &bool_setting(config, "disable-paste"));
    replace_in(t, "{strict}", &bool_setting(config, "ace-strict"))
}

/// The build server of a `lang` playground.
fn block_server_exec(config: &LangConfig, lang: &[char]) -> (res: Vec<char>)
    ensures
        res@ == block_server(*config, lang@),
{
    let s = get_config_string(config, "server", "noserver");
    let sc = chars_of(s.as_str());
    if contains_chars(&sc, &chars_of("noserver")) {
        let key = string_of(&concat(lang, &chars_of(".server")));
        let v = get_config_string(config, key.as_str(), "http://127.0.0.1:3333/api/v1/build-code");
        chars_of(v.as_str())
    } else {
        sc
    }
}

/// Renders one fenced code block, given the text of its language tag, of its
/// options and of its code.
pub fn render_block(
    lang_text: &str,
    options_text: &str,
    code_text: &str,
    config: &LangConfig,
    template: &[char],
    uuid: &str,
) -> (res: Vec<char>)
    ensures
        res@ == render_block_spec(lang_text@, options_text@, code_text@, *config, template@, uuid@),
{
    let code = trim_chars(&chars_of(code_text));
    let raw_lang = string_of(&trim_chars(&chars_of(lang_text)));
    let lang_str = map_lang(raw_lang.as_str());
    let lang = chars_of(lang_str);
    let mut codeblock: Vec<char> = chars_of("```");
    append_chars(&mut codeblock, &lang);
    append_chars(&mut codeblock, &chars_of("\n"));
    append_chars(&mut codeblock, &code);
    append_chars(&mut codeblock, &chars_of("\n```"));
    assert(codeblock@ =~= fence_text(lang@, code@));
    let options = parse_options(options_text);
    let mut editable = options_contain(&options, "editable")
        || get_config_bool(config, "editable", false);
    if options_contain(&options, "editable=false") {
        editable = false;
    }
    let norun = options_contain(&options, "norun");
    let enable_key = string_of(&concat(&lang, &chars_of("-enable")));
    let enable = get_config_bool(config, enable_key.as_str(), false);
    if !enable || options_contain(&options, "nolang") {
        return codeblock;
    }
    fill_template_exec(template, config, &lang, &codeblock, editable, norun, uuid)
}

/// The regular expression of a fenced code block in a supported language:
/// three backquotes, the language tag (group 1), an optional comma, the
/// options up to the end of the line (group 2), and the code up to the
/// closing backquotes (group 3).
pub open spec fn fence_pattern() -> Seq<char> {
    FENCE_PATTERN@
}

/// The language tags that [`fence_pattern`] recognises after the opening
/// backquotes.
pub open spec fn fence_tags() -> Seq<Seq<char>> {
    seq![
        "lisp"@,
        "scheme"@,
        "cpp"@,
        "c++"@,
        "c"@,
        "java"@,
        "py"@,
        "python"@,
        "ts"@,
        "typescript"@,
        "js"@,
        "javascript"@,
        "go"@,
        "pkl"@,
    ]
}

/// The text of [`fence_pattern`].
pub const FENCE_PATTERN: &'static str = r"(?s)```(\blisp\b|\bscheme\b|\bcpp\b|\bc++\b|\bc\b|\bjava\b|\bpy\b|\bpython\b|\bts\b|\btypescript\b|\bjs\b|\bjavascript\b|\bgo\b|\bpkl\b),?(.*?)\r?\n(.*?)```";

/// Whether `regex::Regex::new` accepts `pattern`.
pub uninterp spec fn regex_compiles(pattern: Seq<char>) -> bool;

/// The pieces of `haystack` between the successive matches of the compiled
/// `pattern`, as `regex::Regex::split` yields them.
pub uninterp spec fn regex_split(pattern: Seq<char>, haystack: Seq<char>) -> Seq<Seq<char>>;

/// The capture groups of each successive match of the compiled `pattern` in
/// `haystack`, as `regex::Regex::captures_iter` yields them (group 0 first;
/// `None` for a group that took no part in the match).
pub uninterp spec fn regex_captures(pattern: Seq<char>, haystack: Seq<char>) -> Seq<
    Seq<Option<Seq<char>>>,
>;

/// Compiles `pattern` (`regex::Regex::new`) and asks whether it matches
/// somewhere in `haystack` (`regex::Regex::is_match`). The contract claims
/// that `None` comes exactly when the pattern does not compile, and that the
/// answer is whether the search of `captures_iter` finds a match: both search
/// for the same leftmost-first matches.
#[verifier::external_body]
fn regex_is_match(pattern: &str, haystack: &str) -> (res: Option<bool>)
    ensures
        res is None <==> !regex_compiles(pattern@),
        res matches Some(b) ==> b == (regex_captures(pattern@, haystack@).len() > 0),
{
    match regex::Regex::new(pattern) {
        Ok(re) => Some(re.is_match(haystack)),
        Err(_) => None,
    }
}

/// Compiles `pattern` and splits `haystack` at its matches
/// (`regex::Regex::split`). The contract claims that `None` comes exactly
/// when the pattern does not compile, that the pieces are the named result
/// of the split, and that there is one piece more than there are matches
/// (the split ends each piece at a match of the same search that
/// `captures_iter` makes, and yields the rest after the last one).
#[verifier::external_body]
fn regex_split_text(pattern: &str, haystack: &str) -> (res: Option<Vec<String>>)
    ensures
        res is None <==> !regex_compiles(pattern@),
        res matches Some(v) ==> string_views(v@) == regex_split(pattern@, haystack@) && v@.len()
            == regex_captures(pattern@, haystack@).len() + 1,
{
    match regex::Regex::new(pattern) {
        Ok(re) => Some(re.split(haystack).map(|piece| piece.to_string()).collect()),
        Err(_) => None,
    }
}

/// The views of the capture groups of several matches.
pub open spec fn captures_views(caps: Seq<Vec<Option<String>>>) -> Seq<Seq<Option<Seq<char>>>> {
    caps.map_values(
        |c: Vec<Option<String>>|
            c@.map_values(
                |g: Option<String>|
                    match g {
                        Some(t) => Some(t@),
                        None => None,
                    },
            ),
    )
}

/// Compiles `pattern` and collects the capture groups of each match in
/// `haystack` (`regex::Regex::captures_iter`). The contract claims that
/// `None` comes exactly when the pattern does not compile, and that the
/// groups are the named result of the search.
#[verifier::external_body]
fn regex_captures_text(pattern: &str, haystack: &str) -> (res: Option<Vec<Vec<Option<String>>>>)
    ensures
        res is None <==> !regex_compiles(pattern@),
        res matches Some(v) ==> captures_views(v@) == regex_captures(pattern@, haystack@),
{
    match regex::Regex::new(pattern) {
        Ok(re) => Some(
            re.captures_iter(haystack).map(
                |caps| caps.iter().map(|g| g.map(|m| m.as_str().to_string())).collect(),
            ).collect(),
        ),
        Err(_) => None,
    }
}

/// A lower-case hexadecimal digit.
pub open spec fn is_lower_hex(c: char) -> bool {
    ('0' <= c && c <= '9') || ('a' <= c && c <= 'f')
}

/// The hyphenated lower-case text of a version 4 UUID.
pub open spec fn is_uuid_v4_text(s: Seq<char>) -> bool {
    &&& s.len() == 36
    &&& forall|i: int|
        0 <= i < 36 ==> if i == 8 || i == 13 || i == 18 || i == 23 {
            s[i] == '-'
        } else {
            is_lower_hex(#[trigger] s[i])
        }
    &&& s[14] == '4'
    &&& (s[19] == '8' || s[19] == '9' || s[19] == 'a' || s[19] == 'b')
}

/// A fresh random identifier (`uuid::Uuid::new_v4`, written with `to_string`).
/// The contract claims only the shape of the text: 36 characters, hyphens at
/// the four group boundaries, lower-case hexadecimal digits elsewhere, the
/// version digit 4 and a variant digit among 8, 9, a, b. Which identifier
/// comes out is chance.
#[verifier::external_body]
fn new_uuid() -> (res: String)
    ensures
        is_uuid_v4_text(res@),
{
    uuid::Uuid::new_v4().to_string()
}

/// The lower-case hexadecimal digit of `d`, for `d` below 16.
pub open spec fn hex_char(d: u64) -> char {
    if d == 0 { '0' } else if d == 1 { '1' } else if d == 2 { '2' } else if d == 3 { '3' }
    else if d == 4 { '4' } else if d == 5 { '5' } else if d == 6 { '6' } else if d == 7 { '7' }
    else if d == 8 { '8' } else if d == 9 { '9' } else if d == 10 { 'a' } else if d == 11 { 'b' }
    else if d == 12 { 'c' } else if d == 13 { 'd' } else if d == 14 { 'e' } else { 'f' }
}

fn hex_char_of(d: u64) -> (c: char)
    ensures
        c == hex_char(d),
{
    if d == 0 { '0' } else if d == 1 { '1' } else if d == 2 { '2' } else if d == 3 { '3' }
    else if d == 4 { '4' } else if d == 5 { '5' } else if d == 6 { '6' } else if d == 7 { '7' }
    else if d == 8 { '8' } else if d == 9 { '9' } else if d == 10 { 'a' } else if d == 11 { 'b' }
    else if d == 12 { 'c' } else if d == 13 { 'd' } else if d == 14 { 'e' } else { 'f' }
}

/// The four bits of `k` from bit `s` up.
pub open spec fn nibble(k: u64, s: u64) -> u64 {
    (k >> s) & 15
}

/// Character `i` of [`counter_id`]: the digits of `k` stand in the second
/// group (its upper 16 bits) and in the last group (its lower 48 bits).
pub open spec fn counter_id_char(k: u64, i: int) -> char {
    if i == 8 || i == 13 || i == 18 || i == 23 {
        '-'
    } else if i == 14 {
        '4'
    } else if i == 19 {
        '8'
    } else if 9 <= i <= 12 {
        hex_char(nibble(k, (4 * (24 - i)) as u64))
    } else if 24 <= i <= 35 {
        hex_char(nibble(k, (4 * (35 - i)) as u64))
    } else {
        '0'
    }
}

/// A version 4 identifier made from the number `k`; distinct numbers give
/// distinct identifiers.
pub open spec fn counter_id(k: u64) -> Seq<char> {
    Seq::new(36, |i: int| counter_id_char(k, i))
}

proof fn lemma_counter_id_shape(k: u64)
    ensures
        is_uuid_v4_text(counter_id(k)),
{
    let s = counter_id(k);
    assert forall|i: int| 0 <= i < 36 implies (if i == 8 || i == 13 || i == 18 || i == 23 {
        s[i] == '-'
    } else {
        is_lower_hex(#[trigger] s[i])
    }) by {}
}

proof fn lemma_hex_char_injective(d1: u64, d2: u64)
    requires
        d1 < 16,
        d2 < 16,
        hex_char(d1) == hex_char(d2),
    ensures
        d1 == d2,
{
}

proof fn lemma_nibble_equal_at(k1: u64, k2: u64, i: int, s: u64)
    requires
        counter_id(k1) == counter_id(k2),
        (9 <= i <= 12 && s == (4 * (24 - i)) as u64) || (24 <= i <= 35 && s == (4 * (35 - i)) as u64),
    ensures
        nibble(k1, s) == nibble(k2, s),
{
    assert(counter_id(k1)[i] == counter_id(k2)[i]);
    assert(counter_id(k1)[i] == counter_id_char(k1, i));
    assert(counter_id(k2)[i] == counter_id_char(k2, i));
    assert(counter_id_char(k1, i) == hex_char(nibble(k1, s)));
    assert(counter_id_char(k2, i) == hex_char(nibble(k2, s)));
    assert((k1 >> s) & 15 < 16) by (bit_vector);
    assert((k2 >> s) & 15 < 16) by (bit_vector);
    lemma_hex_char_injective(nibble(k1, s), nibble(k2, s));
}

proof fn lemma_counter_id_injective(k1: u64, k2: u64)
    requires
        counter_id(k1) == counter_id(k2),
    ensures
        k1 == k2,
{
    lemma_nibble_equal_at(k1, k2, 9, 60);
    lemma_nibble_equal_at(k1, k2, 10, 56);
    lemma_nibble_equal_at(k1, k2, 11, 52);
    lemma_nibble_equal_at(k1, k2, 12, 48);
    lemma_nibble_equal_at(k1, k2, 24, 44);
    lemma_nibble_equal_at(k1, k2, 25, 40);
    lemma_nibble_equal_at(k1, k2, 26, 36);
    lemma_nibble_equal_at(k1, k2, 27, 32);
    lemma_nibble_equal_at(k1, k2, 28, 28);
    lemma_nibble_equal_at(k1, k2, 29, 24);
    lemma_nibble_equal_at(k1, k2, 30, 20);
    lemma_nibble_equal_at(k1, k2, 31, 16);
    lemma_nibble_equal_at(k1, k2, 32, 12);
    lemma_nibble_equal_at(k1, k2, 33, 8);
    lemma_nibble_equal_at(k1, k2, 34, 4);
    lemma_nibble_equal_at(k1, k2, 35, 0);
    assert(k1 == k2) by (bit_vector)
        requires
            (k1 >> 60u64) & 15 == (k2 >> 60u64) & 15,
            (k1 >> 56u64) & 15 == (k2 >> 56u64) & 15,
            (k1 >> 52u64) & 15 == (k2 >> 52u64) & 15,
            (k1 >> 48u64) & 15 == (k2 >> 48u64) & 15,
            (k1 >> 44u64) & 15 == (k2 >> 44u64) & 15,
            (k1 >> 40u64) & 15 == (k2 >> 40u64) & 15,
            (k1 >> 36u64) & 15 == (k2 >> 36u64) & 15,
            (k1 >> 32u64) & 15 == (k2 >> 32u64) & 15,
            (k1 >> 28u64) & 15 == (k2 >> 28u64) & 15,
            (k1 >> 24u64) & 15 == (k2 >> 24u64) & 15,
            (k1 >> 20u64) & 15 == (k2 >> 20u64) & 15,
            (k1 >> 16u64) & 15 == (k2 >> 16u64) & 15,
            (k1 >> 12u64) & 15 == (k2 >> 12u64) & 15,
            (k1 >> 8u64) & 15 == (k2 >> 8u64) & 15,
            (k1 >> 4u64) & 15 == (k2 >> 4u64) & 15,
            (k1 >> 0u64) & 15 == (k2 >> 0u64) & 15,
    ;
}

/// A sequence that holds every numbered identifier up to `n` has more than
/// `n` elements.
proof fn lemma_counter_ids_run_out(ids: Seq<Seq<char>>, n: u64)
    requires
        forall|k: u64| k <= n ==> ids.contains(#[trigger] counter_id(k)),
    ensures
        ids.len() > n,
{
    broadcast use vstd::seq_lib::seq_to_set_is_finite;
    let cands = Seq::new((n + 1) as nat, |i: int| counter_id(i as u64));
    assert forall|i: int, j: int|
        0 <= i < cands.len() && 0 <= j < cands.len() && i != j implies cands[i] != cands[j] by {
        if cands[i] == cands[j] {
            lemma_counter_id_injective(i as u64, j as u64);
        }
    }
    cands.unique_seq_to_set();
    ids.lemma_cardinality_of_set();
    assert forall|x: Seq<char>| cands.to_set().contains(x) implies ids.to_set().contains(x) by {
        let i = choose|i: int| 0 <= i < cands.len() && cands[i] == x;
        assert(ids.contains(counter_id(i as u64)));
    }
    vstd::set_lib::lemma_len_subset(cands.to_set(), ids.to_set());
}

/// The text of [`counter_id`].
fn counter_id_text(k: u64) -> (res: String)
    ensures
        res@ == counter_id(k),
{
    let mut v: Vec<char> = Vec::new();
    let mut i: usize = 0;
    while i < 36
        invariant
            i <= 36,
            v@ == counter_id(k).take(i as int),
        decreases 36 - i,
    {
        let c = if i == 8 || i == 13 || i == 18 || i == 23 {
            '-'
        } else if i == 14 {
            '4'
        } else if i == 19 {
            '8'
        } else if 9 <= i && i <= 12 {
            let s: u64 = (4 * (24 - i)) as u64;
            hex_char_of((k >> s) & 15)
        } else if 24 <= i && i <= 35 {
            let s: u64 = (4 * (35 - i)) as u64;
            hex_char_of((k >> s) & 15)
        } else {
            '0'
        };
        assert(c == counter_id_char(k, i as int));
        v.push(c);
        assert(v@ =~= counter_id(k).take(i + 1));
        i += 1;
    }
    assert(v@ =~= counter_id(k));
    string_of(&v)
}

/// Whether one of `ids` is `id`.
fn contains_string(ids: &Vec<String>, id: &String) -> (res: bool)
    ensures
        res == string_views(ids@).contains(id@),
{
    let mut i: usize = 0;
    while i < ids.len()
        invariant
            i <= ids@.len(),
            forall|k: int| 0 <= k < i ==> string_views(ids@)[k] != id@,
        decreases ids@.len() - i,
    {
        if str_equal(ids[i].as_str(), id.as_str()) {
            assert(string_views(ids@)[i as int] == id@);
            return true;
        }
        i += 1;
    }
    false
}

/// A version 4 identifier that none of `ids` is: the first numbered one
/// that is not taken.
fn fresh_id(ids: &Vec<String>) -> (res: String)
    ensures
        is_uuid_v4_text(res@),
        !string_views(ids@).contains(res@),
{
    let n: u64 = ids.len() as u64;
    let mut k: u64 = 0;
    loop
        invariant
            k <= n,
            n == ids@.len(),
            forall|j: u64| j < k ==> string_views(ids@).contains(#[trigger] counter_id(j)),
        decreases n - k,
    {
        let c = counter_id_text(k);
        if !contains_string(ids, &c) {
            proof { lemma_counter_id_shape(k); }
            return c;
        }
        if k == n {
            proof {
                assert forall|j: u64| j <= n implies string_views(ids@).contains(#[trigger] counter_id(j)) by {
                    if j == k {
                        assert(c@ == counter_id(k));
                    }
                }
                lemma_counter_ids_run_out(string_views(ids@), n);
            }
        }
        k += 1;
    }
}

/// The text of capture group `k`, or nothing where the group did not take
/// part in the match.
pub open spec fn group_text(groups: Seq<Option<Seq<char>>>, k: int) -> Seq<char> {
    if 0 <= k < groups.len() && groups[k] is Some {
        groups[k]->0
    } else {
        Seq::empty()
    }
}

/// The element `k` of `v`, or nothing where `v` is shorter.
pub open spec fn nth_or_empty(v: Seq<Seq<char>>, k: int) -> Seq<char> {
    if 0 <= k < v.len() {
        v[k]
    } else {
        Seq::empty()
    }
}

/// What match `k` of the fenced code blocks becomes, with identifier `ids[k]`.
pub open spec fn match_replacement(
    captures: Seq<Seq<Option<Seq<char>>>>,
    config: LangConfig,
    template: Seq<char>,
    ids: Seq<Seq<char>>,
    k: int,
) -> Seq<char> {
    if 0 <= k < captures.len() {
        render_block_spec(
            group_text(captures[k], 1),
            group_text(captures[k], 2),
            group_text(captures[k], 3),
            config,
            template,
            nth_or_empty(ids, k),
        )
    } else {
        Seq::empty()
    }
}

/// The text between matches joined with the replacement of each match:
/// piece 0, replacement 0, piece 1, replacement 1, ..., the last piece.
pub open spec fn splice(
    pieces: Seq<Seq<char>>,
    captures: Seq<Seq<Option<Seq<char>>>>,
    config: LangConfig,
    template: Seq<char>,
    ids: Seq<Seq<char>>,
) -> Seq<char>
    decreases pieces.len(),
{
    if pieces.len() == 0 {
        Seq::empty()
    } else if pieces.len() == 1 {
        pieces[0]
    } else {
        splice(pieces.drop_last(), captures, config, template, ids) + match_replacement(
            captures,
            config,
            template,
            ids,
            pieces.len() - 2,
        ) + pieces.last()
    }
}

/// The chapter text made of the pieces of text between the fenced code
/// blocks and the rendering of each block, given the capture groups of each
/// block and the identifier of each playground.
pub fn render_pieces(
    pieces: &Vec<String>,
    captures: &Vec<Vec<Option<String>>>,
    config: &LangConfig,
    template: &[char],
    ids: &Vec<String>,
) -> (res: String)
    ensures
        res@ == splice(
            string_views(pieces@),
            captures_views(captures@),
            *config,
            template@,
            string_views(ids@),
        ),
{
    let ghost ps = string_views(pieces@);
    let ghost cs = captures_views(captures@);
    let ghost is = string_views(ids@);
    if pieces.len() == 0 {
        return String::new();
    }
    let mut out: Vec<char> = chars_of(pieces[0].as_str());
    assert(ps.take(1).drop_last() =~= ps.take(0));
    assert(out@ == splice(ps.take(1), cs, *config, template@, is));
    let mut i: usize = 1;
    while i < pieces.len()
        invariant
            1 <= i <= pieces@.len(),
            ps == string_views(pieces@),
            cs == captures_views(captures@),
            is == string_views(ids@),
            out@ == splice(ps.take(i as int), cs, *config, template@, is),
        decreases pieces@.len() - i,
    {
        let k = i - 1;
        let empty = String::new();
        let rep: Vec<char> = if k < captures.len() {
            let groups = &captures[k];
            let g1 = if 1 < groups.len() { match &groups[1] { Some(t) => t, None => &empty } } else { &empty };
            let g2 = if 2 < groups.len() { match &groups[2] { Some(t) => t, None => &empty } } else { &empty };
            let g3 = if 3 < groups.len() { match &groups[3] { Some(t) => t, None => &empty } } else { &empty };
            assert(g1@ == group_text(cs[k as int], 1));
            assert(g2@ == group_text(cs[k as int], 2));
            assert(g3@ == group_text(cs[k as int], 3));
            let id = if k < ids.len() { &ids[k] } else { &empty };
            assert(id@ == nth_or_empty(is, k as int));
            render_block(g1.as_str(), g2.as_str(), g3.as_str(), config, template, id.as_str())
        } else {
            Vec::new()
        };
        assert(rep@ == match_replacement(cs, *config, template@, is, k as int));
        let ghost before = out@;
        append_chars(&mut out, &rep);
        append_chars(&mut out, &chars_of(pieces[i].as_str()));
        assert(ps.take(i + 1).drop_last() =~= ps.take(i as int));
        assert(ps.take(i + 1).last() == ps[i as int]);
        assert(out@ =~= before + rep@ + ps[i as int]);
        i += 1;
    }
    assert(ps.take(pieces.len() as int) =~= ps);
    string_of(&out)
}

/// The lower-case text of a version 4 UUID for each of `n` playgrounds, no
/// two of them alike.
pub open spec fn valid_ids(ids: Seq<Seq<char>>, n: nat) -> bool {
    &&& ids.len() == n
    &&& forall|k: int| 0 <= k < n ==> is_uuid_v4_text(#[trigger] ids[k])
    &&& ids.no_duplicates()
}

/// The playground template among the asset files.
pub open spec fn lang_template(files: Seq<(&str, &[u8])>) -> Seq<char> {
    utf8_lossy(asset_content(files, "lang.html"@))
}

/// A chapter after rendering with playground identifiers `ids`.
pub open spec fn rendered_with(
    content: Seq<char>,
    config: LangConfig,
    template: Seq<char>,
    ids: Seq<Seq<char>>,
) -> Seq<char> {
    splice(
        regex_split(fence_pattern(), content),
        regex_captures(fence_pattern(), content),
        config,
        template,
        ids,
    )
}

/// What rendering may make of `content`: where the fence pattern finds no
/// block the chapter is left as it is and reported unchanged; otherwise it
/// is reported changed and every block is rendered, each playground with
/// its own fresh identifier.
pub open spec fn render_outcome(
    content: Seq<char>,
    config: LangConfig,
    template: Seq<char>,
    found: bool,
    out: Seq<char>,
) -> bool {
    if !has_fenced_blocks(content) {
        !found && out == content
    } else {
        &&& found
        &&& exists|ids: Seq<Seq<char>>|
            valid_ids(ids, regex_captures(fence_pattern(), content).len())
                && #[trigger] rendered_with(content, config, template, ids) == out
    }
}

/// Renders the fenced code blocks of the supported languages in `content`;
/// reports whether any was found, and the rendered chapter.
pub fn render_langs(content: &str, config: &LangConfig, files: &[(&str, &[u8])]) -> (res: (
    bool,
    String,
))
    requires
        has_asset(files@, "lang.html"@),
    ensures
        render_outcome(content@, *config, lang_template(files@), res.0, res.1@),
{
    let found = regex_is_match(FENCE_PATTERN, content);
    match found {
        Some(true) => {},
        _ => {
            return (false, content.to_owned());
        },
    }
    let pieces = match regex_split_text(FENCE_PATTERN, content) {
        Some(p) => p,
        None => {
            return (false, content.to_owned());
        },
    };
    let captures = match regex_captures_text(FENCE_PATTERN, content) {
        Some(c) => c,
        None => {
            return (false, content.to_owned());
        },
    };
    let mut ids: Vec<String> = Vec::new();
    let mut i: usize = 0;
    while i < captures.len()
        invariant
            i <= captures@.len(),
            valid_ids(string_views(ids@), i as nat),
        decreases captures@.len() - i,
    {
        let drawn = new_uuid();
        let id = if contains_string(&ids, &drawn) {
            fresh_id(&ids)
        } else {
            drawn
        };
        let ghost before = string_views(ids@);
        ids.push(id);
        assert(string_views(ids@) =~= before.push(id@));
        assert(!before.contains(id@));
        assert forall|a: int, b: int|
            0 <= a < string_views(ids@).len() && 0 <= b < string_views(ids@).len() && a != b
            implies string_views(ids@)[a] != string_views(ids@)[b] by {
            if a == i as int {
                assert(string_views(ids@)[b] == before[b]);
            } else if b == i as int {
                assert(string_views(ids@)[a] == before[a]);
            }
        }
        i += 1;
    }
    let template_text = get_asset(files, "lang.html");
    let template = chars_of(template_text.as_str());
    let rendered = render_pieces(&pieces, &captures, config, &template, &ids);
    proof {
        assert(captures_views(captures@).len() == captures@.len());
        assert(rendered_with(content@, *config, lang_template(files@), string_views(ids@))
            == rendered@);
    }
    (true, rendered)
}

/// Whether rendering finds a fenced code block of a supported language in `content`.
pub open spec fn has_fenced_blocks(content: Seq<char>) -> bool {
    regex_compiles(fence_pattern()) && regex_captures(fence_pattern(), content).len() > 0
}

impl Lang {
    /// The name under which mdBook knows the preprocessor.
    pub fn name(&self) -> (res: &'static str)
        ensures
            res@ == "mdbook-lang"@,
    {
        "mdbook-lang"
    }

    /// Whether the preprocessor runs for `renderer`: only for the HTML renderer.
    pub fn supports_renderer(&self, renderer: &str) -> (res: bool)
        ensures
            res == (renderer@ == "html"@),
    {
        str_equal(renderer, "html")
    }

    /// Renders the fenced code blocks of every chapter; a chapter without any
    /// stays as it is.
    pub fn run(&self, config: &LangConfig, files: &[(&str, &[u8])], chapters: &mut Vec<String>)
        requires
            has_asset(files@, "lang.html"@),
        ensures
            final(chapters)@.len() == old(chapters)@.len(),
            forall|k: int|
                0 <= k < old(chapters)@.len() ==> render_outcome(
                    #[trigger] old(chapters)@[k]@,
                    *config,
                    lang_template(files@),
                    has_fenced_blocks(old(chapters)@[k]@),
                    final(chapters)@[k]@,
                ),
    {
        let ghost start = chapters@;
        let mut i: usize = 0;
        while i < chapters.len()
            invariant
                i <= chapters@.len(),
                chapters@.len() == start.len(),
                has_asset(files@, "lang.html"@),
                forall|k: int| i <= k < start.len() ==> chapters@[k] == start[k],
                forall|k: int|
                    0 <= k < i ==> render_outcome(
                        #[trigger] start[k]@,
                        *config,
                        lang_template(files@),
                        has_fenced_blocks(start[k]@),
                        chapters@[k]@,
                    ),
            decreases chapters@.len() - i,
        {
            let (found, rendered) = render_langs(chapters[i].as_str(), config, files);
            if found {
                chapters.set(i, rendered);
            }
            i += 1;
        }
    }
}

/// Whether the fenced block with capture groups `groups` becomes a
/// playground: its language is enabled and its options do not say `nolang`.
pub open spec fn block_enabled(groups: Seq<Option<Seq<char>>>, config: LangConfig) -> bool {
    let lang = spec_map_lang(trim(group_text(groups, 1)));
    config_bool(config, lang + "-enable"@, false) && !spec_parse_options(
        group_text(groups, 2),
    ).contains("nolang"@)
}

proof fn lemma_splice_ignores_ids(
    pieces: Seq<Seq<char>>,
    captures: Seq<Seq<Option<Seq<char>>>>,
    config: LangConfig,
    template: Seq<char>,
    ids1: Seq<Seq<char>>,
    ids2: Seq<Seq<char>>,
)
    requires
        forall|k: int| 0 <= k < captures.len() ==> !block_enabled(#[trigger] captures[k], config),
    ensures
        splice(pieces, captures, config, template, ids1) == splice(
            pieces,
            captures,
            config,
            template,
            ids2,
        ),
    decreases pieces.len(),
{
    if pieces.len() > 1 {
        lemma_splice_ignores_ids(pieces.drop_last(), captures, config, template, ids1, ids2);
        let k = pieces.len() - 2;
        if k < captures.len() {
            assert(!block_enabled(captures[k], config));
        }
    }
}

/// Where no fenced block of `content` becomes a playground, rendering
/// involves no fresh identifier: any two renderings of the chapter report
/// the same and give the same text.
pub proof fn lemma_render_without_playgrounds(
    content: Seq<char>,
    config: LangConfig,
    template: Seq<char>,
    found1: bool,
    out1: Seq<char>,
    found2: bool,
    out2: Seq<char>,
)
    requires
        render_outcome(content, config, template, found1, out1),
        render_outcome(content, config, template, found2, out2),
        forall|k: int|
            0 <= k < regex_captures(fence_pattern(), content).len() ==> !block_enabled(
                #[trigger] regex_captures(fence_pattern(), content)[k],
                config,
            ),
    ensures
        found1 == found2,
        out1 == out2,
{
    if has_fenced_blocks(content) {
        let n = regex_captures(fence_pattern(), content).len();
        let ids1 = choose|ids: Seq<Seq<char>>|
            valid_ids(ids, n) && #[trigger] rendered_with(content, config, template, ids) == out1;
        let ids2 = choose|ids: Seq<Seq<char>>|
            valid_ids(ids, n) && #[trigger] rendered_with(content, config, template, ids) == out2;
        lemma_splice_ignores_ids(
            regex_split(fence_pattern(), content),
            regex_captures(fence_pattern(), content),
            config,
            template,
            ids1,
            ids2,
        );
    }
}

/// Every playground of a rendered chapter has its own identifier: the
/// chapter is the rendering with some identifiers, one for each fenced block,
/// each the text of a version 4 UUID, and no two of them equal.
pub proof fn lemma_playground_ids_distinct(
    content: Seq<char>,
    config: LangConfig,
    template: Seq<char>,
    out: Seq<char>,
)
    requires
        render_outcome(content, config, template, true, out),
    ensures
        exists|ids: Seq<Seq<char>>|
            {
                &&& ids.len() == regex_captures(fence_pattern(), content).len()
                &&& forall|a: int, b: int| 0 <= a < b < ids.len() ==> ids[a] != ids[b]
                &&& forall|k: int| 0 <= k < ids.len() ==> is_uuid_v4_text(#[trigger] ids[k])
                &&& #[trigger] rendered_with(content, config, template, ids) == out
            },
{
    let n = regex_captures(fence_pattern(), content).len();
    let ids = choose|ids: Seq<Seq<char>>|
        valid_ids(ids, n) && #[trigger] rendered_with(content, config, template, ids) == out;
    assert(forall|a: int, b: int| 0 <= a < b < ids.len() ==> ids[a] != ids[b]);
}

/// Which build server a playground calls: a `server` setting that is a
/// string and does not mention `noserver` is used as it is; otherwise the
/// `<lang>.server` setting, where it is a string, or else the default address.
pub proof fn lemma_block_server_choice(config: LangConfig, lang: Seq<char>)
    ensures
        ({
            let fallback = match lookup(config.entries@, lang + ".server"@) {
                Some(ConfigValue::Str(w)) => w@,
                _ => "http://127.0.0.1:3333/api/v1/build-code"@,
            };
            match lookup(config.entries@, "server"@) {
                Some(ConfigValue::Str(v)) => if !contains_text(v@, "noserver"@) {
                    block_server(config, lang) == v@
                } else {
                    block_server(config, lang) == fallback
                },
                _ => block_server(config, lang) == fallback,
            }
        }),
{
    assert(occurs_at("noserver"@, "noserver"@, 0)) by {
        assert("noserver"@.subrange(0, "noserver"@.len() as int) =~= "noserver"@);
    }
}

spec fn name_sig(s: Seq<char>) -> (int, char, char) {
    (s.len() as int, s[0], s[1])
}

/// Making a language tag canonical twice gives what making it canonical once
/// gives: every canonical name is its own canonical name.
pub proof fn lemma_map_lang_idempotent(raw: Seq<char>)
    ensures
        spec_map_lang(spec_map_lang(raw)) == spec_map_lang(raw),
{
    reveal_strlit("lisp");
    reveal_strlit("scheme");
    reveal_strlit("py");
    reveal_strlit("python");
    reveal_strlit("ts");
    reveal_strlit("typescript");
    reveal_strlit("js");
    reveal_strlit("javascript");
    reveal_strlit("java");
    reveal_strlit("cpp");
    reveal_strlit("c++");
    reveal_strlit("c");
    reveal_strlit("go");
    reveal_strlit("pkl");
    assert(name_sig("lisp"@) == (4int, 'l', 'i'));
    assert(name_sig("scheme"@) == (6int, 's', 'c'));
    assert(name_sig("py"@) == (2int, 'p', 'y'));
    assert(name_sig("python"@) == (6int, 'p', 'y'));
    assert(name_sig("ts"@) == (2int, 't', 's'));
    assert(name_sig("typescript"@) == (10int, 't', 'y'));
    assert(name_sig("js"@) == (2int, 'j', 's'));
    assert(name_sig("javascript"@) == (10int, 'j', 'a'));
    assert(name_sig("java"@) == (4int, 'j', 'a'));
    assert(name_sig("cpp"@) == (3int, 'c', 'p'));
    assert(name_sig("c++"@) == (3int, 'c', '+'));
    assert("c"@.len() == 1);
    assert(name_sig("go"@) == (2int, 'g', 'o'));
    assert(name_sig("pkl"@) == (3int, 'p', 'k'));
}

/// The options of a fence are one more than its commas, and each is trimmed.
pub proof fn lemma_parse_options_shape(s: Seq<char>)
    ensures
        spec_parse_options(s).len() == crate::text::count_char(s, ',') + 1,
        forall|i: int|
            0 <= i < spec_parse_options(s).len() ==> trim(#[trigger] spec_parse_options(s)[i])
                == spec_parse_options(s)[i],
{
    crate::text::lemma_split_count(s, ',');
    assert forall|i: int|
        0 <= i < spec_parse_options(s).len() implies trim(#[trigger] spec_parse_options(s)[i])
        == spec_parse_options(s)[i] by {
        crate::text::lemma_trim_idempotent(split_on(s, ',')[i]);
    }
}

/// The canonical language of each tag of the fence pattern is one of the
/// eight languages with a toolchain.
pub proof fn lemma_fence_tag_language(i: int)
    requires
        0 <= i < fence_tags().len(),
    ensures
        ({
            let l = spec_map_lang(fence_tags()[i]);
            ||| l == "cpp"@
            ||| l == "java"@
            ||| l == "go"@
            ||| l == "python"@
            ||| l == "javascript"@
            ||| l == "typescript"@
            ||| l == "pkl"@
            ||| l == "scheme"@
        }),
{
    reveal_strlit("lisp");
    reveal_strlit("scheme");
    reveal_strlit("py");
    reveal_strlit("python");
    reveal_strlit("ts");
    reveal_strlit("typescript");
    reveal_strlit("js");
    reveal_strlit("javascript");
    reveal_strlit("java");
    reveal_strlit("cpp");
    reveal_strlit("c++");
    reveal_strlit("c");
    reveal_strlit("go");
    reveal_strlit("pkl");
    assert(name_sig("lisp"@) == (4int, 'l', 'i'));
    assert(name_sig("scheme"@) == (6int, 's', 'c'));
    assert(name_sig("py"@) == (2int, 'p', 'y'));
    assert(name_sig("python"@) == (6int, 'p', 'y'));
    assert(name_sig("ts"@) == (2int, 't', 's'));
    assert(name_sig("typescript"@) == (10int, 't', 'y'));
    assert(name_sig("js"@) == (2int, 'j', 's'));
    assert(name_sig("javascript"@) == (10int, 'j', 'a'));
    assert(name_sig("java"@) == (4int, 'j', 'a'));
    assert(name_sig("cpp"@) == (3int, 'c', 'p'));
    assert(name_sig("c++"@) == (3int, 'c', '+'));
    assert("c"@.len() == 1);
    assert(name_sig("go"@) == (2int, 'g', 'o'));
    assert(name_sig("pkl"@) == (3int, 'p', 'k'));
    if i == 0 {
        assert(fence_tags()[i] == "lisp"@);
        assert(spec_map_lang("lisp"@) == "scheme"@);
    } else if i == 1 {
        assert(fence_tags()[i] == "scheme"@);
        assert(spec_map_lang("scheme"@) == "scheme"@);
    } else if i == 2 {
        assert(fence_tags()[i] == "cpp"@);
        assert(spec_map_lang("cpp"@) == "cpp"@);
    } else if i == 3 {
        assert(fence_tags()[i] == "c++"@);
        assert(spec_map_lang("c++"@) == "cpp"@);
    } else if i == 4 {
        assert(fence_tags()[i] == "c"@);
        assert(spec_map_lang("c"@) == "cpp"@);
    } else if i == 5 {
        assert(fence_tags()[i] == "java"@);
        assert(spec_map_lang("java"@) == "java"@);
    } else if i == 6 {
        assert(fence_tags()[i] == "py"@);
        assert(spec_map_lang("py"@) == "python"@);
    } else if i == 7 {
        assert(fence_tags()[i] == "python"@);
        assert(spec_map_lang("python"@) == "python"@);
    } else if i == 8 {
        assert(fence_tags()[i] == "ts"@);
        assert(spec_map_lang("ts"@) == "typescript"@);
    } else if i == 9 {
        assert(fence_tags()[i] == "typescript"@);
        assert(spec_map_lang("typescript"@) == "typescript"@);
    } else if i == 10 {
        assert(fence_tags()[i] == "js"@);
        assert(spec_map_lang("js"@) == "javascript"@);
    } else if i == 11 {
        assert(fence_tags()[i] == "javascript"@);
        assert(spec_map_lang("javascript"@) == "javascript"@);
    } else if i == 12 {
        assert(fence_tags()[i] == "go"@);
        assert(spec_map_lang("go"@) == "go"@);
    } else if i == 13 {
        assert(fence_tags()[i] == "pkl"@);
        assert(spec_map_lang("pkl"@) == "pkl"@);
    }
}

/// The placeholders of the playground template.
pub open spec fn placeholders() -> Seq<Seq<char>> {
    seq![
        "{lang}"@,
        "{codeblock}"@,
        "{editable}"@,
        "[norun]"@,
        "[lines]"@,
        "{uuid}"@,
        "{restfulserver}"@,
        "{auto}"@,
        "{menu}"@,
        "{clear}"@,
        "{select}"@,
        "{copy}"@,
        "{cut}"@,
        "{paste}"@,
        "{strict}"@,
    ]
}

/// Filling in the template touches only its placeholders: a template that
/// holds none of them comes out as it is.
pub proof fn lemma_template_without_placeholders(
    template: Seq<char>,
    config: LangConfig,
    lang: Seq<char>,
    codeblock: Seq<char>,
    editable: bool,
    norun: bool,
    uuid: Seq<char>,
)
    requires
        forall|i: int|
            0 <= i < placeholders().len() ==> !contains_text(template, #[trigger] placeholders()[i]),
    ensures
        fill_template(template, config, lang, codeblock, editable, norun, uuid) == template,
{
    let ph = placeholders();
    assert(!contains_text(template, ph[0]));
    assert(!contains_text(template, ph[1]));
    assert(!contains_text(template, ph[2]));
    assert(!contains_text(template, ph[3]));
    assert(!contains_text(template, ph[4]));
    assert(!contains_text(template, ph[5]));
    assert(!contains_text(template, ph[6]));
    assert(!contains_text(template, ph[7]));
    assert(!contains_text(template, ph[8]));
    assert(!contains_text(template, ph[9]));
    assert(!contains_text(template, ph[10]));
    assert(!contains_text(template, ph[11]));
    assert(!contains_text(template, ph[12]));
    assert(!contains_text(template, ph[13]));
    assert(!contains_text(template, ph[14]));
    lemma_replace_absent(template, "{lang}"@, lang);
    lemma_replace_absent(template, "{codeblock}"@, codeblock);
    lemma_replace_absent(template, "{editable}"@, flag_text(editable, "editable"@));
    lemma_replace_absent(template, "[norun]"@, flag_text(norun, "norun"@));
    lemma_replace_absent(template, "[lines]"@, decimal(block_height(codeblock)));
    lemma_replace_absent(template, "{uuid}"@, uuid);
    lemma_replace_absent(template, "{restfulserver}"@, block_server(config, lang));
    lemma_replace_absent(
        template,
        "{auto}"@,
        flag_text(config_bool(config, "disable-devtool-auto"@, false), "disable-devtool-auto"@),
    );
    lemma_replace_absent(template, "{menu}"@, bool_text(config_bool(config, "disable-menu"@, false)));
    lemma_replace_absent(template, "{clear}"@, bool_text(config_bool(config, "clear-log"@, false)));
    lemma_replace_absent(template, "{select}"@, bool_text(config_bool(config, "disable-select"@, false)));
    lemma_replace_absent(template, "{copy}"@, bool_text(config_bool(config, "disable-copy"@, false)));
    lemma_replace_absent(template, "{cut}"@, bool_text(config_bool(config, "disable-cut"@, false)));
    lemma_replace_absent(template, "{paste}"@, bool_text(config_bool(config, "disable-paste"@, false)));
    lemma_replace_absent(template, "{strict}"@, bool_text(config_bool(config, "ace-strict"@, false)));
}

}
