//! The configuration file `config.toml`: reading its settings and writing it
//! back with updated values.
use vstd::prelude::*;
use crate::text::{
    chars_eq_str, chars_of, lines, lines_chars, push_chars, push_str, second_piece,
    second_piece_chars, split_once, split_once_chars, starts_with, starts_with_str,
    string_from_chars, string_from_str, trim, trim_char, trim_char_chars, trim_chars, views,
    starts_with_chars, is_white_space, is_first_index, lemma_first_index, strip_cr, strip_end,
    strip_start, first_index, lemma_strip_keeps_out, lemma_strip_start_shape, lemma_strip_end_shape,
    lemma_lines_no_newline, until_char,
};

verus! {

/// Settings of the storage network connection.
pub struct ShelbyConfig {
    pub network: String,
    pub api_key: Option<String>,
    pub rpc_url: Option<String>,
    pub private_key: Option<String>,
}

/// The view of an optional string.
pub open spec fn opt_view(o: Option<String>) -> Option<Seq<char>> {
    match o {
        Some(s) => Some(s@),
        None => None,
    }
}

/// The settings as plain values.
pub struct ConfigView {
    pub network: Seq<char>,
    pub api_key: Option<Seq<char>>,
    pub rpc_url: Option<Seq<char>>,
    pub private_key: Option<Seq<char>>,
}

/// The settings of a configuration as plain values.
pub open spec fn config_view(c: ShelbyConfig) -> ConfigView {
    ConfigView {
        network: c.network@,
        api_key: opt_view(c.api_key),
        rpc_url: opt_view(c.rpc_url),
        private_key: opt_view(c.private_key),
    }
}

/// The settings without a configuration file.
pub open spec fn default_view() -> ConfigView {
    ConfigView { network: "SHELBYNET"@, api_key: None, rpc_url: None, private_key: None }
}

/// The settings after one line of the file: comments (`#`), section headers
/// (`[`), blank lines and lines without `=` change nothing; `key = value`
/// sets a known key to the value with surrounding blanks and quotes removed.
pub open spec fn apply_line(v: ConfigView, raw: Seq<char>) -> ConfigView {
    let line = trim(raw);
    if starts_with(line, "#"@) || starts_with(line, "["@) || line.len() == 0 {
        v
    } else {
        match split_once(line, '=') {
            None => v,
            Some((k, val)) => {
                let key = trim(k);
                let value = trim_char(trim(val), '"');
                if key == "network"@ {
                    ConfigView { network: value, ..v }
                } else if key == "api_key"@ {
                    ConfigView { api_key: Some(value), ..v }
                } else if key == "rpc_url"@ {
                    ConfigView { rpc_url: Some(value), ..v }
                } else if key == "private_key"@ {
                    ConfigView { private_key: Some(value), ..v }
                } else {
                    v
                }
            },
        }
    }
}

/// The settings after the given lines, in order.
pub open spec fn apply_lines(v: ConfigView, ls: Seq<Seq<char>>) -> ConfigView
    decreases ls.len(),
{
    if ls.len() == 0 {
        v
    } else {
        apply_line(apply_lines(v, ls.drop_last()), ls.last())
    }
}

impl ShelbyConfig {
    /// The settings without a configuration file: network `SHELBYNET`.
    pub fn default() -> (c: Self)
        ensures
            config_view(c) == default_view(),
    {
        ShelbyConfig {
            network: string_from_str("SHELBYNET"),
            api_key: None,
            rpc_url: None,
            private_key: None,
        }
    }

    fn apply(&mut self, raw: &[char])
        ensures
            config_view(*final(self)) == apply_line(config_view(*old(self)), raw@),
    {
        let line = trim_chars(raw);
        if starts_with_str(line.as_slice(), "#") || starts_with_str(line.as_slice(), "[")
            || line.len() == 0 {
            return;
        }
        match split_once_chars(line.as_slice(), '=') {
            None => {},
            Some((k, val)) => {
                let key = trim_chars(k.as_slice());
                let trimmed = trim_chars(val.as_slice());
                let value = trim_char_chars(trimmed.as_slice(), '"');
                let value_string = string_from_chars(value.as_slice());
                if chars_eq_str(key.as_slice(), "network") {
                    self.network = value_string;
                } else if chars_eq_str(key.as_slice(), "api_key") {
                    self.api_key = Some(value_string);
                } else if chars_eq_str(key.as_slice(), "rpc_url") {
                    self.rpc_url = Some(value_string);
                } else if chars_eq_str(key.as_slice(), "private_key") {
                    self.private_key = Some(value_string);
                }
            },
        }
    }

    /// Reads the settings from the text of `config.toml`, starting from the
    /// defaults.
    pub fn parse_toml(content: &str) -> (c: Self)
        ensures
            config_view(c) == apply_lines(default_view(), lines(content@)),
    {
        let chars = chars_of(content);
        let ls = lines_chars(chars.as_slice());
        let mut config = Self::default();
        let mut i: usize = 0;
        while i < ls.len()
            invariant
                i <= ls@.len(),
                views(ls@) == lines(content@),
                config_view(config) == apply_lines(default_view(), views(ls@).take(i as int)),
            decreases ls@.len() - i,
        {
            config.apply(ls[i].as_slice());
            assert(views(ls@).take(i + 1).drop_last() =~= views(ls@).take(i as int));
            i = i + 1;
        }
        assert(views(ls@).take(ls@.len() as int) =~= views(ls@));
        config
    }
}

// ---------------------------------------------------------------------------
// Writing the file back
// ---------------------------------------------------------------------------

/// The value that `key = value` on the first fitting line gives: the first
/// line that, trimmed, starts with `key` and holds a `=`; its text after the
/// first `=` up to the second `=` (or the end), trimmed and unquoted.
pub open spec fn extracted(ls: Seq<Seq<char>>, key: Seq<char>) -> Option<Seq<char>>
    decreases ls.len(),
{
    if ls.len() == 0 {
        None
    } else {
        let line = trim(ls[0]);
        match second_piece(line, '=') {
            Some(val) => if starts_with(line, key) {
                Some(trim_char(trim(val), '"'))
            } else {
                extracted(ls.drop_first(), key)
            },
            None => extracted(ls.drop_first(), key),
        }
    }
}

/// The value set for `key` in the text of a configuration file.
pub fn extract_value(content: &str, key: &str) -> (r: Option<String>)
    ensures
        opt_view(r) == extracted(lines(content@), key@),
{
    let chars = chars_of(content);
    let ls = lines_chars(chars.as_slice());
    let key_chars = chars_of(key);
    let mut i: usize = 0;
    assert(views(ls@).skip(0) =~= views(ls@));
    while i < ls.len()
        invariant
            i <= ls@.len(),
            views(ls@) == lines(content@),
            key_chars@ == key@,
            extracted(lines(content@), key@) == extracted(views(ls@).skip(i as int), key@),
        decreases ls@.len() - i,
    {
        let ghost rest = views(ls@).skip(i as int);
        assert(rest[0] == ls@[i as int]@);
        assert(rest.drop_first() =~= views(ls@).skip(i + 1));
        let line = trim_chars(ls[i].as_slice());
        if starts_with_chars(line.as_slice(), key_chars.as_slice()) {
            match second_piece_chars(line.as_slice(), '=') {
                Some(piece) => {
                    let t = trim_chars(piece.as_slice());
                    let v = trim_char_chars(t.as_slice(), '"');
                    return Some(string_from_chars(v.as_slice()));
                },
                None => {},
            }
        }
        i = i + 1;
    }
    None
}

/// The first line whose trimmed text starts with `network`.
pub open spec fn network_line(ls: Seq<Seq<char>>) -> Option<Seq<char>>
    decreases ls.len(),
{
    if ls.len() == 0 {
        None
    } else if starts_with(trim(ls[0]), "network"@) {
        Some(ls[0])
    } else {
        network_line(ls.drop_first())
    }
}

/// The network kept when the file is written back: from the first line
/// that starts with `network`, all of its text after the first `=`, trimmed
/// and unquoted; `TESTNET` when there is no such line or it has no `=`.
pub open spec fn kept_network(existing: Seq<char>) -> Seq<char> {
    match network_line(lines(existing)) {
        Some(l) => match split_once(l, '=') {
            Some((_, p)) => trim_char(trim(p), '"'),
            None => "TESTNET"@,
        },
        None => "TESTNET"@,
    }
}

/// The network kept from an existing file.
pub fn existing_network(existing: &str) -> (r: String)
    ensures
        r@ == kept_network(existing@),
{
    let chars = chars_of(existing);
    let ls = lines_chars(chars.as_slice());
    let mut i: usize = 0;
    assert(views(ls@).skip(0) =~= views(ls@));
    while i < ls.len()
        invariant
            i <= ls@.len(),
            views(ls@) == lines(existing@),
            network_line(lines(existing@)) == network_line(views(ls@).skip(i as int)),
        decreases ls@.len() - i,
    {
        let ghost rest = views(ls@).skip(i as int);
        assert(rest[0] == ls@[i as int]@);
        assert(rest.drop_first() =~= views(ls@).skip(i + 1));
        let line = trim_chars(ls[i].as_slice());
        if starts_with_str(line.as_slice(), "network") {
            return match split_once_chars(ls[i].as_slice(), '=') {
                Some((_, p)) => {
                    let t = trim_chars(p.as_slice());
                    let v = trim_char_chars(t.as_slice(), '"');
                    string_from_chars(v.as_slice())
                },
                None => string_from_str("TESTNET"),
            };
        }
        i = i + 1;
    }
    string_from_str("TESTNET")
}

/// The line `key = "value"`.
pub open spec fn setting_line(key: Seq<char>, value: Seq<char>) -> Seq<char> {
    key + " = \""@ + value + "\""@
}

/// The lines written for an optional setting: a given non-empty value; no
/// line for a given empty value; else the value already in the file, if any.
pub open spec fn setting_lines(key: Seq<char>, given: Option<Seq<char>>, existing: Seq<char>) -> Seq<
    Seq<char>,
> {
    match given {
        Some(v) => if v.len() > 0 {
            seq![setting_line(key, v)]
        } else {
            Seq::empty()
        },
        None => match extracted(lines(existing), key) {
            Some(e) => seq![setting_line(key, e)],
            None => Seq::empty(),
        },
    }
}

/// The lines of the written file.
pub open spec fn config_lines(
    existing: Seq<char>,
    rpc_url: Option<Seq<char>>,
    api_key: Option<Seq<char>>,
    private_key: Option<Seq<char>>,
) -> Seq<Seq<char>> {
    seq!["# ShelDrive Configuration"@, ""@, "[shelby]"@, setting_line("network"@, kept_network(existing))]
        + setting_lines("api_key"@, api_key, existing) + setting_lines("rpc_url"@, rpc_url, existing)
        + setting_lines("private_key"@, private_key, existing) + seq![""@]
}

/// Lines joined with `'\n'`.
pub open spec fn join_lines(ls: Seq<Seq<char>>) -> Seq<char>
    decreases ls.len(),
{
    if ls.len() == 0 {
        Seq::empty()
    } else if ls.len() == 1 {
        ls[0]
    } else {
        join_lines(ls.drop_last()) + "\n"@ + ls.last()
    }
}

fn setting_string(key: &str, value: &[char]) -> (r: String)
    ensures
        r@ == setting_line(key@, value@),
{
    let mut s = string_from_str(key);
    push_str(&mut s, " = \"");
    push_chars(&mut s, value);
    push_str(&mut s, "\"");
    s
}

fn push_setting(out: &mut Vec<String>, key: &str, given: &Option<String>, existing: &str)
    ensures
        views_s(final(out)@) == views_s(old(out)@) + setting_lines(key@, opt_view(*given), existing@),
{
    let ghost before = views_s(out@);
    match given {
        Some(v) => {
            if v.as_str().unicode_len() > 0 {
                let chars = chars_of(v.as_str());
                out.push(setting_string(key, chars.as_slice()));
                assert(views_s(out@) =~= before + setting_lines(key@, opt_view(*given), existing@));
            } else {
                assert(views_s(out@) =~= before + setting_lines(key@, opt_view(*given), existing@));
            }
        },
        None => match extract_value(existing, key) {
            Some(e) => {
                let chars = chars_of(e.as_str());
                out.push(setting_string(key, chars.as_slice()));
                assert(views_s(out@) =~= before + setting_lines(key@, opt_view(*given), existing@));
            },
            None => {
                assert(views_s(out@) =~= before + setting_lines(key@, opt_view(*given), existing@));
            },
        },
    }
}

/// The views of a sequence of strings.
pub open spec fn views_s(v: Seq<String>) -> Seq<Seq<char>> {
    v.map_values(|s: String| s@)
}

/// The text of `config.toml` after saving: a header, the `[shelby]`
/// section, the network kept from the existing file, then `api_key`,
/// `rpc_url` and `private_key` as `setting_lines` decides, and a final
/// newline.
pub fn render_config(
    existing: &str,
    rpc_url: &Option<String>,
    api_key: &Option<String>,
    private_key: &Option<String>,
) -> (r: String)
    ensures
        r@ == join_lines(
            config_lines(existing@, opt_view(*rpc_url), opt_view(*api_key), opt_view(*private_key)),
        ),
{
    let mut out: Vec<String> = Vec::new();
    out.push(string_from_str("# ShelDrive Configuration"));
    out.push(string_from_str(""));
    out.push(string_from_str("[shelby]"));
    let network = existing_network(existing);
    let nchars = chars_of(network.as_str());
    out.push(setting_string("network", nchars.as_slice()));
    assert(views_s(out@) =~= seq!["# ShelDrive Configuration"@, ""@, "[shelby]"@, setting_line("network"@, kept_network(existing@))]);
    let ghost head = views_s(out@);
    push_setting(&mut out, "api_key", api_key, existing);
    push_setting(&mut out, "rpc_url", rpc_url, existing);
    push_setting(&mut out, "private_key", private_key, existing);
    let ghost mid = views_s(out@);
    out.push(string_from_str(""));
    assert(views_s(out@) =~= mid.push(""@));
    let ghost target = config_lines(
        existing@,
        opt_view(*rpc_url),
        opt_view(*api_key),
        opt_view(*private_key),
    );
    assert(views_s(out@) =~= target);
    let mut s = String::new();
    let mut i: usize = 0;
    while i < out.len()
        invariant
            i <= out@.len(),
            views_s(out@) == target,
            s@ == join_lines(target.take(i as int)),
        decreases out@.len() - i,
    {
        assert(target.take(i + 1).drop_last() =~= target.take(i as int));
        if i > 0 {
            push_str(&mut s, "\n");
        } else {
            assert(target.take(0) =~= Seq::<Seq<char>>::empty());
            assert(s@ =~= Seq::<char>::empty());
        }
        push_str(&mut s, out[i].as_str());
        i = i + 1;
        proof {
            if i == 1 {
                assert(target.take(1).len() == 1);
                assert(s@ =~= target.take(1)[0]);
            }
        }
    }
    assert(target.take(out@.len() as int) =~= target);
    s
}

// ---------------------------------------------------------------------------
// What is saved is read back
// ---------------------------------------------------------------------------

/// A value that reads back as written: no line break, and no quote at
/// either end.
pub open spec fn settable(v: Seq<char>) -> bool {
    &&& !v.contains('\n')
    &&& v.len() > 0 ==> v[0] != '"' && v.last() != '"'
}

/// The value written for an optional setting, if a line is written.
pub open spec fn written_value(key: Seq<char>, given: Option<Seq<char>>, existing: Seq<char>) -> Option<
    Seq<char>,
> {
    match given {
        Some(v) => if v.len() > 0 {
            Some(v)
        } else {
            None
        },
        None => extracted(lines(existing), key),
    }
}

/// What saving writes for an optional setting depends on its argument: a
/// given non-empty value is written as `key = "value"` whatever the old file
/// holds; a value given as empty text clears the setting (no line, and
/// nothing read back) whatever the old file holds; only a setting left out
/// keeps the old file's value, when it has one.
pub proof fn lemma_setting_follows_argument(
    key: Seq<char>,
    given: Option<Seq<char>>,
    existing: Seq<char>,
    other: Seq<char>,
)
    ensures
        forall|v: Seq<char>|
            given == Some(v) && v.len() > 0 ==> setting_lines(key, given, existing) == seq![
                key + " = \""@ + v + "\""@,
            ] && #[trigger] written_value(key, Some(v), existing) == Some(v),
        given == Some(Seq::<char>::empty()) ==> setting_lines(key, given, existing).len() == 0
            && written_value(key, given, existing) is None,
        given is Some ==> setting_lines(key, given, existing) == setting_lines(key, given, other)
            && written_value(key, given, existing) == written_value(key, given, other),
        given is None ==> written_value(key, given, existing) == extracted(lines(existing), key),
{
}

/// The settings that the saved file holds.
pub open spec fn saved_view(
    existing: Seq<char>,
    rpc_url: Option<Seq<char>>,
    api_key: Option<Seq<char>>,
    private_key: Option<Seq<char>>,
) -> ConfigView {
    ConfigView {
        network: kept_network(existing),
        api_key: written_value("api_key"@, api_key, existing),
        rpc_url: written_value("rpc_url"@, rpc_url, existing),
        private_key: written_value("private_key"@, private_key, existing),
    }
}

proof fn lemma_split_keeps_out(s: Seq<char>, c: char, x: char)
    requires
        !s.contains(x),
    ensures
        split_once(s, c) matches Some((_, b)) ==> !b.contains(x),
        second_piece(s, c) matches Some(p) ==> !p.contains(x),
{
    lemma_first_index(s, c);
    if let Some((_, b)) = split_once(s, c) {
        if b.contains(x) {
            let k = choose|k: int| 0 <= k < b.len() && b[k] == x;
            assert(s[k + first_index(s, c) + 1] == x);
        }
        lemma_first_index(b, c);
        let p = until_char(b, c);
        if p.contains(x) {
            let k = choose|k: int| 0 <= k < p.len() && p[k] == x;
            assert(b[k] == x);
        }
    }
}

proof fn lemma_unquoted_settable(x: Seq<char>)
    requires
        !x.contains('\n'),
    ensures
        settable(trim_char(trim(x), '"')),
{
    lemma_strip_keeps_out(x, true, ' ', '\n');
    lemma_strip_keeps_out(strip_start(x, true, ' '), true, ' ', '\n');
    let t = trim(x);
    lemma_strip_keeps_out(t, false, '"', '\n');
    let u = strip_start(t, false, '"');
    lemma_strip_keeps_out(u, false, '"', '\n');
    lemma_strip_start_shape(t, false, '"');
    lemma_strip_end_shape(u, false, '"');
    let r = strip_end(u, false, '"');
    if r.len() > 0 {
        assert(r[0] == u[0]);
    }
}

proof fn lemma_lines_tail(ls: Seq<Seq<char>>)
    requires
        ls.len() > 0,
        forall|i: int| 0 <= i < ls.len() ==> !(#[trigger] ls[i]).contains('\n'),
    ensures
        forall|i: int|
            0 <= i < ls.drop_first().len() ==> !(#[trigger] ls.drop_first()[i]).contains('\n'),
{
    assert forall|i: int| 0 <= i < ls.drop_first().len() implies !(
    #[trigger] ls.drop_first()[i]).contains('\n') by {
        assert(ls.drop_first()[i] == ls[i + 1]);
    }
}

proof fn lemma_extracted_settable(ls: Seq<Seq<char>>, key: Seq<char>)
    requires
        forall|i: int| 0 <= i < ls.len() ==> !(#[trigger] ls[i]).contains('\n'),
    ensures
        extracted(ls, key) matches Some(v) ==> settable(v),
    decreases ls.len(),
{
    if ls.len() > 0 {
        let line = trim(ls[0]);
        lemma_strip_keeps_out(ls[0], true, ' ', '\n');
        lemma_strip_keeps_out(strip_start(ls[0], true, ' '), true, ' ', '\n');
        lemma_split_keeps_out(line, '=', '\n');
        if let Some(val) = second_piece(line, '=') {
            lemma_unquoted_settable(val);
        }
        lemma_lines_tail(ls);
        lemma_extracted_settable(ls.drop_first(), key);
    }
}

proof fn lemma_network_line_clean(ls: Seq<Seq<char>>)
    requires
        forall|i: int| 0 <= i < ls.len() ==> !(#[trigger] ls[i]).contains('\n'),
    ensures
        network_line(ls) matches Some(l) ==> !l.contains('\n'),
    decreases ls.len(),
{
    if ls.len() > 0 {
        lemma_lines_tail(ls);
        lemma_network_line_clean(ls.drop_first());
    }
}

/// The network kept from any existing file reads back as written.
proof fn lemma_kept_network_settable(existing: Seq<char>)
    ensures
        settable(kept_network(existing)),
{
    reveal_strlit("TESTNET");
    lemma_lines_no_newline(existing);
    lemma_network_line_clean(lines(existing));
    if let Some(l) = network_line(lines(existing)) {
        lemma_split_keeps_out(l, '=', '\n');
        if let Some((_, p)) = split_once(l, '=') {
            lemma_unquoted_settable(p);
        }
    }
}

/// A value written for a setting reads back as written, when a given value does.
proof fn lemma_written_settable(key: Seq<char>, given: Option<Seq<char>>, existing: Seq<char>)
    requires
        given matches Some(v) ==> settable(v),
    ensures
        written_value(key, given, existing) matches Some(v) ==> settable(v),
{
    lemma_lines_no_newline(existing);
    lemma_extracted_settable(lines(existing), key);
}

/// A key as written in the file: not empty, no `=`, no white space, and not
/// starting a comment or a section.
pub open spec fn plain_key(key: Seq<char>) -> bool {
    &&& key.len() > 0
    &&& !key.contains('=')
    &&& forall|i: int| 0 <= i < key.len() ==> !is_white_space(#[trigger] key[i])
    &&& key[0] != '#'
    &&& key[0] != '['
}

proof fn lemma_join_front(ls: Seq<Seq<char>>)
    requires
        ls.len() >= 2,
    ensures
        join_lines(ls) == ls[0] + "\n"@ + join_lines(ls.drop_first()),
    decreases ls.len(),
{
    if ls.len() == 2 {
        assert(ls.drop_first().len() == 1);
        assert(ls.drop_last().len() == 1);
        assert(join_lines(ls.drop_first()) == ls[1]);
        assert(join_lines(ls.drop_last()) == ls[0]);
    } else {
        lemma_join_front(ls.drop_last());
        assert(ls.drop_last().drop_first() =~= ls.drop_first().drop_last());
        assert(ls.drop_first().last() == ls.last());
        assert(ls.drop_first().len() >= 2);
    }
}

proof fn lemma_lines_cons(a: Seq<char>, rest: Seq<char>)
    requires
        !a.contains('\n'),
    ensures
        lines(a + "\n"@ + rest) == seq![strip_cr(a)] + lines(rest),
{
    reveal_strlit("\n");
    let s = a + "\n"@ + rest;
    assert(s[a.len() as int] == '\n');
    assert(is_first_index(s, '\n', a.len() as int)) by {
        assert forall|j: int| 0 <= j < a.len() implies s[j] != '\n' by {
            assert(s[j] == a[j]);
        }
    }
    lemma_first_index(s, '\n');
    assert(s.take(a.len() as int) =~= a);
    assert(s.skip(a.len() as int + 1) =~= rest);
}

proof fn lemma_lines_of_joined(ls: Seq<Seq<char>>)
    requires
        ls.len() >= 1,
        forall|i: int| 0 <= i < ls.len() ==> !(#[trigger] ls[i]).contains('\n') && strip_cr(ls[i])
            == ls[i],
    ensures
        lines(join_lines(ls) + "\n"@) == ls,
    decreases ls.len(),
{
    reveal_strlit("\n");
    if ls.len() == 1 {
        lemma_lines_cons(ls[0], Seq::empty());
        assert(ls[0] + "\n"@ + Seq::<char>::empty() =~= ls[0] + "\n"@);
        assert(lines(Seq::<char>::empty()) =~= Seq::<Seq<char>>::empty());
        assert(seq![strip_cr(ls[0])] + Seq::<Seq<char>>::empty() =~= ls);
    } else {
        lemma_join_front(ls);
        let rest = ls.drop_first();
        assert forall|i: int| 0 <= i < rest.len() implies !(#[trigger] rest[i]).contains('\n')
            && strip_cr(rest[i]) == rest[i] by {
            assert(rest[i] == ls[i + 1]);
        }
        lemma_lines_of_joined(rest);
        assert(join_lines(ls) + "\n"@ =~= ls[0] + "\n"@ + (join_lines(rest) + "\n"@));
        lemma_lines_cons(ls[0], join_lines(rest) + "\n"@);
        assert(seq![ls[0]] + rest =~= ls);
    }
}

proof fn lemma_apply_concat(v: ConfigView, a: Seq<Seq<char>>, b: Seq<Seq<char>>)
    ensures
        apply_lines(v, a + b) == apply_lines(apply_lines(v, a), b),
    decreases b.len(),
{
    if b.len() == 0 {
        assert(a + b =~= a);
    } else {
        assert((a + b).drop_last() =~= a + b.drop_last());
        lemma_apply_concat(v, a, b.drop_last());
    }
}

proof fn lemma_trim_unchanged(s: Seq<char>)
    requires
        s.len() > 0,
        !is_white_space(s[0]),
        !is_white_space(s.last()),
    ensures
        trim(s) == s,
{
}

proof fn lemma_quoted_value(v: Seq<char>)
    requires
        settable(v),
    ensures
        trim_char(trim(" \""@ + v + "\""@), '"') == v,
{
    reveal_strlit(" \"");
    reveal_strlit("\"");
    let q = seq!['"'];
    let s = seq![' ', '"'] + v + q;
    assert(" \""@ + v + "\""@ =~= s);
    assert(s.drop_first() =~= q + v + q);
    assert(strip_start(s, true, ' ') == strip_start(q + v + q, true, ' '));
    assert(strip_start(q + v + q, true, ' ') == q + v + q);
    assert((q + v + q).last() == '"');
    assert(strip_end(q + v + q, true, ' ') == q + v + q);
    assert((q + v + q).drop_first() =~= v + q);
    if v.len() == 0 {
        assert(v + q =~= q);
        assert(q.drop_first() =~= Seq::<char>::empty());
        assert(strip_start(q + v + q, false, '"') == strip_start(v + q, false, '"'));
        assert(strip_start(q, false, '"') == strip_start(Seq::<char>::empty(), false, '"'));
        assert(strip_start(q + v + q, false, '"') =~= v);
    } else {
        assert((v + q)[0] == v[0]);
        assert((q + v + q)[0] == '"');
        assert(strip_start(q + v + q, false, '"') == strip_start(v + q, false, '"'));
        assert(strip_start(v + q, false, '"') == v + q);
        assert((v + q).drop_last() =~= v);
        assert(strip_end(v + q, false, '"') == strip_end(v, false, '"'));
        assert(strip_end(v, false, '"') == v);
    }
}

proof fn lemma_apply_setting(c: ConfigView, key: Seq<char>, v: Seq<char>)
    requires
        plain_key(key),
        settable(v),
    ensures
        ({
            let line = setting_line(key, v);
            &&& trim(line) == line
            &&& !starts_with(line, "#"@)
            &&& !starts_with(line, "["@)
            &&& line.len() > 0
            &&& split_once(line, '=') == Some((key + " "@, " \""@ + v + "\""@))
            &&& trim(key + " "@) == key
            &&& trim_char(trim(" \""@ + v + "\""@), '"') == v
        }),
{
    reveal_strlit(" = \"");
    reveal_strlit("\"");
    reveal_strlit("#");
    reveal_strlit("[");
    reveal_strlit(" ");
    reveal_strlit(" \"");
    let line = setting_line(key, v);
    let n: int = key.len() as int;
    assert(line[0] == key[0]);
    assert(line.last() == '"');
    assert(!is_white_space(key[0]));
    lemma_trim_unchanged(line);
    assert(line.subrange(0, 1)[0] == key[0]);
    assert(line[n] == ' ');
    assert(line[n + 1] == '=');
    assert(is_first_index(line, '=', n + 1)) by {
        assert forall|j: int| 0 <= j < n + 1 implies line[j] != '=' by {
            if j < n {
                assert(line[j] == key[j]);
            }
        }
    }
    lemma_first_index(line, '=');
    assert(line.take(n + 1) =~= key + " "@);
    assert(line.skip(n + 2) =~= " \""@ + v + "\""@);
    let k = key + " "@;
    assert(k[0] == key[0]);
    assert(k.last() == ' ');
    assert(k.drop_last() =~= key);
    assert(strip_start(k, true, ' ') == k);
    assert(strip_end(k, true, ' ') == strip_end(key, true, ' '));
    assert(strip_end(key, true, ' ') == key);
    lemma_quoted_value(v);
}

proof fn lemma_setting_line_clean(key: Seq<char>, v: Seq<char>)
    requires
        plain_key(key),
        settable(v),
    ensures
        !setting_line(key, v).contains('\n'),
        strip_cr(setting_line(key, v)) == setting_line(key, v),
{
    reveal_strlit(" = \"");
    reveal_strlit("\"");
    let l = setting_line(key, v);
    assert(l.last() == '"');
    if l.contains('\n') {
        let k = choose|k: int| 0 <= k < l.len() && l[k] == '\n';
        if k < key.len() {
            assert(l[k] == key[k]);
            assert(is_white_space(key[k]));
        } else if k < key.len() + 4 {
        } else if k < key.len() + 4 + v.len() {
            assert(l[k] == v[k - key.len() - 4]);
            assert(v.contains('\n'));
        }
    }
}

proof fn lemma_known_keys()
    ensures
        plain_key("network"@),
        plain_key("api_key"@),
        plain_key("rpc_url"@),
        plain_key("private_key"@),
        "network"@ != "api_key"@,
        "network"@ != "rpc_url"@,
        "network"@ != "private_key"@,
        "api_key"@ != "rpc_url"@,
        "api_key"@ != "private_key"@,
        "rpc_url"@ != "private_key"@,
{
    reveal_strlit("network");
    reveal_strlit("api_key");
    reveal_strlit("rpc_url");
    reveal_strlit("private_key");
    assert("network"@[0] != "api_key"@[0]);
    assert("network"@[0] != "rpc_url"@[0]);
    assert("network"@[0] != "private_key"@[0]);
    assert("api_key"@[0] != "rpc_url"@[0]);
    assert("api_key"@[0] != "private_key"@[0]);
    assert("rpc_url"@[1] != "private_key"@[1]);
    assert(!"network"@.contains('=')) by {
        assert forall|i: int| 0 <= i < "network"@.len() implies "network"@[i] != '=' by {}
    }
    assert(!"api_key"@.contains('=')) by {
        assert forall|i: int| 0 <= i < "api_key"@.len() implies "api_key"@[i] != '=' by {}
    }
    assert(!"rpc_url"@.contains('=')) by {
        assert forall|i: int| 0 <= i < "rpc_url"@.len() implies "rpc_url"@[i] != '=' by {}
    }
    assert(!"private_key"@.contains('=')) by {
        assert forall|i: int| 0 <= i < "private_key"@.len() implies "private_key"@[i] != '=' by {}
    }
}

proof fn lemma_apply_key(c: ConfigView, key: Seq<char>, v: Seq<char>)
    requires
        key == "network"@ || key == "api_key"@ || key == "rpc_url"@ || key == "private_key"@,
        settable(v),
    ensures
        apply_line(c, setting_line(key, v)) == (if key == "network"@ {
            ConfigView { network: v, ..c }
        } else if key == "api_key"@ {
            ConfigView { api_key: Some(v), ..c }
        } else if key == "rpc_url"@ {
            ConfigView { rpc_url: Some(v), ..c }
        } else {
            ConfigView { private_key: Some(v), ..c }
        }),
{
    lemma_known_keys();
    lemma_apply_setting(c, key, v);
}

proof fn lemma_apply_optional(c: ConfigView, key: Seq<char>, w: Option<Seq<char>>)
    requires
        key == "api_key"@ || key == "rpc_url"@ || key == "private_key"@,
        w matches Some(v) ==> settable(v),
    ensures
        apply_lines(
            c,
            match w {
                Some(v) => seq![setting_line(key, v)],
                None => Seq::empty(),
            },
        ) == (if key == "api_key"@ {
            ConfigView { api_key: if w is Some { w } else { c.api_key }, ..c }
        } else if key == "rpc_url"@ {
            ConfigView { rpc_url: if w is Some { w } else { c.rpc_url }, ..c }
        } else {
            ConfigView { private_key: if w is Some { w } else { c.private_key }, ..c }
        }),
{
    lemma_known_keys();
    match w {
        Some(v) => {
            let ls = seq![setting_line(key, v)];
            assert(ls.drop_last() =~= Seq::<Seq<char>>::empty());
            assert(apply_lines(c, ls) == apply_line(apply_lines(c, ls.drop_last()), ls.last()));
            assert(apply_lines(c, ls) == apply_line(c, setting_line(key, v)));
            lemma_apply_key(c, key, v);
        },
        None => {},
    }
}

/// The lines of a saved file before its final empty line.
pub open spec fn body_lines(
    net: Seq<char>,
    wa: Option<Seq<char>>,
    wr: Option<Seq<char>>,
    wp: Option<Seq<char>>,
) -> Seq<Seq<char>> {
    seq!["# ShelDrive Configuration"@, ""@, "[shelby]"@, setting_line("network"@, net)]
        + optional_line("api_key"@, wa) + optional_line("rpc_url"@, wr) + optional_line(
        "private_key"@,
        wp,
    )
}

/// The line of an optional setting, if one is written.
pub open spec fn optional_line(key: Seq<char>, w: Option<Seq<char>>) -> Seq<Seq<char>> {
    match w {
        Some(v) => seq![setting_line(key, v)],
        None => Seq::empty(),
    }
}

proof fn lemma_body_line_clean(
    net: Seq<char>,
    wa: Option<Seq<char>>,
    wr: Option<Seq<char>>,
    wp: Option<Seq<char>>,
    i: int,
)
    requires
        settable(net),
        wa matches Some(v) ==> settable(v),
        wr matches Some(v) ==> settable(v),
        wp matches Some(v) ==> settable(v),
        0 <= i < body_lines(net, wa, wr, wp).len(),
    ensures
        !body_lines(net, wa, wr, wp)[i].contains('\n'),
        strip_cr(body_lines(net, wa, wr, wp)[i]) == body_lines(net, wa, wr, wp)[i],
{
    reveal_strlit("# ShelDrive Configuration");
    reveal_strlit("");
    reveal_strlit("[shelby]");
    lemma_known_keys();
    let b = body_lines(net, wa, wr, wp);
    let l = b[i];
    let a = optional_line("api_key"@, wa);
    let r = optional_line("rpc_url"@, wr);
    let p = optional_line("private_key"@, wp);
    if i < 3 {
        if l.contains('\n') {
            let k = choose|k: int| 0 <= k < l.len() && l[k] == '\n';
        }
    } else if i == 3 {
        lemma_setting_line_clean("network"@, net);
    } else if i < 4 + a.len() {
        assert(l == a[i - 4]);
        lemma_setting_line_clean("api_key"@, wa->0);
    } else if i < 4 + a.len() + r.len() {
        assert(l == r[i - 4 - a.len()]);
        lemma_setting_line_clean("rpc_url"@, wr->0);
    } else {
        assert(l == p[i - 4 - a.len() - r.len()]);
        lemma_setting_line_clean("private_key"@, wp->0);
    }
}

/// What `render_config` writes, `ShelbyConfig::parse_toml` reads back: the
/// kept network, and each optional setting as written (a given non-empty
/// value, else the value found in the old file), for any old file and any
/// given values that hold no line break and no quote at either end.
#[verifier::rlimit(50)]
pub proof fn lemma_saved_config_reads_back(
    existing: Seq<char>,
    rpc_url: Option<Seq<char>>,
    api_key: Option<Seq<char>>,
    private_key: Option<Seq<char>>,
)
    requires
        api_key matches Some(v) ==> settable(v),
        rpc_url matches Some(v) ==> settable(v),
        private_key matches Some(v) ==> settable(v),
    ensures
        apply_lines(
            default_view(),
            lines(join_lines(config_lines(existing, rpc_url, api_key, private_key))),
        ) == saved_view(existing, rpc_url, api_key, private_key),
{
    reveal_strlit("# ShelDrive Configuration");
    reveal_strlit("");
    reveal_strlit("[shelby]");
    reveal_strlit("#");
    reveal_strlit("[");
    reveal_strlit("\n");
    reveal_strlit("\"");
    lemma_known_keys();
    lemma_kept_network_settable(existing);
    lemma_written_settable("api_key"@, api_key, existing);
    lemma_written_settable("rpc_url"@, rpc_url, existing);
    lemma_written_settable("private_key"@, private_key, existing);
    let net = kept_network(existing);
    let wa = written_value("api_key"@, api_key, existing);
    let wr = written_value("rpc_url"@, rpc_url, existing);
    let wp = written_value("private_key"@, private_key, existing);
    assert(setting_lines("api_key"@, api_key, existing) == optional_line("api_key"@, wa));
    assert(setting_lines("rpc_url"@, rpc_url, existing) == optional_line("rpc_url"@, wr));
    assert(setting_lines("private_key"@, private_key, existing) == optional_line("private_key"@, wp));
    let head = seq![
        "# ShelDrive Configuration"@,
        ""@,
        "[shelby]"@,
        setting_line("network"@, net),
    ];
    let body = body_lines(net, wa, wr, wp);
    assert(body =~= head + optional_line("api_key"@, wa) + optional_line("rpc_url"@, wr)
        + optional_line("private_key"@, wp));
    let all = config_lines(existing, rpc_url, api_key, private_key);
    assert(all =~= body.push(""@));
    assert(join_lines(all) == join_lines(body) + "\n"@ + ""@) by {
        assert(all.drop_last() =~= body);
    }
    assert(join_lines(body) + "\n"@ + ""@ =~= join_lines(body) + "\n"@);
    assert forall|i: int| 0 <= i < body.len() implies !(#[trigger] body[i]).contains('\n')
        && strip_cr(body[i]) == body[i] by {
        lemma_body_line_clean(net, wa, wr, wp, i);
    }
    lemma_lines_of_joined(body);
    // header lines change nothing
    let h3 = seq!["# ShelDrive Configuration"@, ""@, "[shelby]"@];
    assert(head =~= h3.push(setting_line("network"@, net)));
    assert(apply_line(default_view(), "# ShelDrive Configuration"@) == default_view()) by {
        lemma_trim_unchanged("# ShelDrive Configuration"@);
        assert("# ShelDrive Configuration"@.subrange(0, 1) =~= "#"@);
    }
    assert(apply_line(default_view(), ""@) == default_view()) by {
        assert(trim(""@) == ""@);
    }
    assert(apply_line(default_view(), "[shelby]"@) == default_view()) by {
        lemma_trim_unchanged("[shelby]"@);
        assert("[shelby]"@.subrange(0, 1) =~= "["@);
    }
    assert(apply_lines(default_view(), h3) == default_view()) by {
        let a1 = seq!["# ShelDrive Configuration"@];
        let a2 = seq!["# ShelDrive Configuration"@, ""@];
        assert(a1.drop_last() =~= Seq::<Seq<char>>::empty());
        assert(apply_lines(default_view(), a1.drop_last()) == default_view());
        assert(apply_lines(default_view(), a1) == apply_line(
            apply_lines(default_view(), a1.drop_last()),
            a1.last(),
        ));
        assert(apply_lines(default_view(), a1) == apply_line(default_view(), "# ShelDrive Configuration"@));
        assert(a2.drop_last() =~= a1);
        assert(apply_lines(default_view(), a2) == apply_line(apply_lines(default_view(), a1), ""@));
        assert(h3.drop_last() =~= a2);
        assert(apply_lines(default_view(), h3) == apply_line(apply_lines(default_view(), a2), "[shelby]"@));
    }
    lemma_apply_key(default_view(), "network"@, net);
    let c1 = ConfigView { network: net, ..default_view() };
    assert(head.drop_last() =~= h3);
    assert(apply_lines(default_view(), head) == apply_line(
        apply_lines(default_view(), h3),
        setting_line("network"@, net),
    ));
    assert(apply_lines(default_view(), head) == c1);
    lemma_apply_concat(default_view(), head, optional_line("api_key"@, wa));
    lemma_apply_optional(c1, "api_key"@, wa);
    let c2 = ConfigView { api_key: wa, ..c1 };
    lemma_apply_concat(default_view(), head + optional_line("api_key"@, wa), optional_line("rpc_url"@, wr));
    lemma_apply_optional(c2, "rpc_url"@, wr);
    let c3 = ConfigView { rpc_url: wr, ..c2 };
    lemma_apply_concat(
        default_view(),
        head + optional_line("api_key"@, wa) + optional_line("rpc_url"@, wr),
        optional_line("private_key"@, wp),
    );
    lemma_apply_optional(c3, "private_key"@, wp);
}

} // verus!
