//! The manifest document format.
//!
//! A manifest is persisted as one JSON object in a fixed, canonical shape:
//!
//! ```text
//! {"games":[{"game_id":1,"upload_id":2,"title":"...","description":"...",
//! "url":"...","directory":"..."},...]}
//! ```
//!
//! [`render_manifest`] writes exactly this form: keys in this order, no
//! whitespace, integers in canonical decimal, and `"` and `\` in strings
//! escaped as `\"` and `\\` (all other characters stand for themselves).
//! [`parse_manifest`] accepts exactly the canonical form and fails with
//! [`DownloadError::ManifestCorrupt`] on anything else, so the two are
//! mutual inverses: parsing a rendered manifest yields the original records
//! ([`lemma_manifest_round_trip`]), and parsing succeeds only on documents
//! the renderer could have written.

use vstd::prelude::*;

use crate::error::DownloadError;
use crate::game::{GameJson, GameView};
use crate::library::LibraryJson;
use crate::numbers::{
    lemma_parse_render_int, parse_int_at, push_int, spec_parse_int, spec_render_int,
};

verus! {

/// The escaped form of one character.
pub open spec fn spec_escape_char(c: char) -> Seq<char> {
    if c == '"' {
        seq!['\\', '"']
    } else if c == '\\' {
        seq!['\\', '\\']
    } else {
        seq![c]
    }
}

/// The escaped form of a string's characters.
pub open spec fn spec_escape(t: Seq<char>) -> Seq<char>
    decreases t.len(),
{
    if t.len() == 0 {
        Seq::empty()
    } else {
        spec_escape_char(t[0]) + spec_escape(t.drop_first())
    }
}

/// The rendered form of a string: its escaped characters in quotes.
pub open spec fn spec_render_string(t: Seq<char>) -> Seq<char> {
    seq!['"'] + spec_escape(t) + seq!['"']
}

/// The rendered form of one record.
pub open spec fn spec_render_entry(g: GameView) -> Seq<char> {
    "{\"game_id\":"@ + spec_render_int(g.game_id) + ",\"upload_id\":"@ + spec_render_int(
        g.upload_id,
    ) + ",\"title\":"@ + spec_render_string(g.title) + ",\"description\":"@ + spec_render_string(
        g.description,
    ) + ",\"url\":"@ + spec_render_string(g.url) + ",\"directory\":"@ + spec_render_string(
        g.directory,
    ) + "}"@
}

/// The rendered forms of the records after the first, each preceded by a
/// comma.
pub open spec fn spec_render_tail(gs: Seq<GameView>) -> Seq<char>
    decreases gs.len(),
{
    if gs.len() == 0 {
        Seq::empty()
    } else {
        seq![','] + spec_render_entry(gs[0]) + spec_render_tail(gs.drop_first())
    }
}

/// The rendered forms of all records, comma-separated.
pub open spec fn spec_render_entries(gs: Seq<GameView>) -> Seq<char> {
    if gs.len() == 0 {
        Seq::empty()
    } else {
        spec_render_entry(gs[0]) + spec_render_tail(gs.drop_first())
    }
}

/// The rendered form of a whole manifest document.
pub open spec fn spec_render_manifest(gs: Seq<GameView>) -> Seq<char> {
    "{\"games\":["@ + spec_render_entries(gs) + "]}"@
}

/// Escaping distributes over appending one character.
proof fn lemma_escape_push(t: Seq<char>, c: char)
    ensures
        spec_escape(t.push(c)) == spec_escape(t) + spec_escape_char(c),
    decreases t.len(),
{
    if t.len() == 0 {
        assert(t.push(c).drop_first() =~= Seq::<char>::empty());
        assert(t.push(c)[0] == c);
        assert(spec_escape(t) + spec_escape_char(c) =~= spec_escape_char(c));
        assert(spec_escape(Seq::<char>::empty()) =~= Seq::<char>::empty());
        assert(spec_escape(t.push(c)) =~= spec_escape_char(c) + Seq::<char>::empty());
        assert(spec_escape_char(c) + Seq::<char>::empty() =~= spec_escape_char(c));
    } else {
        lemma_escape_push(t.drop_first(), c);
        assert(t.push(c).drop_first() =~= t.drop_first().push(c));
        assert(t.push(c)[0] == t[0]);
        assert(spec_escape_char(t[0]) + (spec_escape(t.drop_first()) + spec_escape_char(c))
            =~= (spec_escape_char(t[0]) + spec_escape(t.drop_first())) + spec_escape_char(c));
    }
}

/// Appends the escaped characters of `t` to `out`.
fn push_escaped(out: &mut String, t: &str)
    ensures
        final(out)@ == old(out)@ + spec_escape(t@),
{
    let len = t.unicode_len();
    let mut i: usize = 0;
    while i < len
        invariant
            i <= len,
            len == t@.len(),
            out@ == old(out)@ + spec_escape(t@.take(i as int)),
        decreases len - i,
    {
        let c = t.get_char(i);
        if c == '"' {
            out.append("\\\"");
            proof {
                reveal_strlit("\\\"");
            }
        } else if c == '\\' {
            out.append("\\\\");
            proof {
                reveal_strlit("\\\\");
            }
        } else {
            let piece = t.substring_char(i, i + 1);
            out.append(piece);
        }
        proof {
            lemma_escape_push(t@.take(i as int), t@[i as int]);
            assert(t@.take(i + 1) =~= t@.take(i as int).push(t@[i as int]));
            assert(spec_escape_char(t@[i as int]) =~= if t@[i as int] == '"' {
                seq!['\\', '"']
            } else if t@[i as int] == '\\' {
                seq!['\\', '\\']
            } else {
                t@.subrange(i as int, i + 1)
            });
            assert(out@ =~= old(out)@ + spec_escape(t@.take(i + 1)));
        }
        i = i + 1;
    }
    proof {
        assert(t@.take(len as int) =~= t@);
    }
}

/// Appends the rendered (quoted, escaped) form of `t` to `out`.
fn push_quoted(out: &mut String, t: &str)
    ensures
        final(out)@ == old(out)@ + spec_render_string(t@),
{
    out.append("\"");
    push_escaped(out, t);
    out.append("\"");
    proof {
        reveal_strlit("\"");
        assert(out@ =~= old(out)@ + spec_render_string(t@));
    }
}

/// Appends the rendered form of one record to `out`.
fn push_entry(out: &mut String, g: &GameJson)
    ensures
        final(out)@ == old(out)@ + spec_render_entry(g@),
{
    out.append("{\"game_id\":");
    push_int(out, g.game_id);
    out.append(",\"upload_id\":");
    push_int(out, g.upload_id);
    out.append(",\"title\":");
    push_quoted(out, g.title.as_str());
    out.append(",\"description\":");
    push_quoted(out, g.description.as_str());
    out.append(",\"url\":");
    push_quoted(out, g.url.as_str());
    out.append(",\"directory\":");
    push_quoted(out, g.directory.as_str());
    out.append("}");
    proof {
        assert(out@ =~= old(out)@ + spec_render_entry(g@));
    }
}

/// A record appended to the list extends the comma-separated tail by one
/// comma and one rendered record.
proof fn lemma_render_tail_push(gs: Seq<GameView>, g: GameView)
    ensures
        spec_render_tail(gs.push(g)) == spec_render_tail(gs) + (seq![','] + spec_render_entry(
            g,
        )),
    decreases gs.len(),
{
    if gs.len() == 0 {
        assert(gs.push(g).drop_first() =~= Seq::<GameView>::empty());
        assert(gs.push(g)[0] == g);
        assert(spec_render_tail(Seq::<GameView>::empty()) =~= Seq::<char>::empty());
        assert(spec_render_tail(gs.push(g)) =~= seq![','] + spec_render_entry(g) + Seq::<
            char,
        >::empty());
        assert(spec_render_tail(gs) + (seq![','] + spec_render_entry(g)) =~= seq![',']
            + spec_render_entry(g) + Seq::<char>::empty());
    } else {
        lemma_render_tail_push(gs.drop_first(), g);
        assert(gs.push(g).drop_first() =~= gs.drop_first().push(g));
        assert(gs.push(g)[0] == gs[0]);
        assert(seq![','] + spec_render_entry(gs[0]) + (spec_render_tail(gs.drop_first()) + (seq![
            ',',
        ] + spec_render_entry(g))) =~= (seq![','] + spec_render_entry(gs[0]) + spec_render_tail(
            gs.drop_first(),
        )) + (seq![','] + spec_render_entry(g)));
    }
}

/// Renders the whole manifest document; see the module description for the
/// exact form.
pub fn render_manifest(library_json: &LibraryJson) -> (r: String)
    ensures
        r@ == spec_render_manifest(library_json@),
{
    let mut out = String::from_str("{\"games\":[");
    let ghost header = out@;
    let mut k: usize = 0;
    while k < library_json.games.len()
        invariant
            k <= library_json.games@.len(),
            header == "{\"games\":["@,
            out@ == header + spec_render_entries(library_json@.take(k as int)),
        decreases library_json.games@.len() - k,
    {
        if k > 0 {
            out.append(",");
            proof {
                reveal_strlit(",");
            }
        }
        push_entry(&mut out, &library_json.games[k]);
        proof {
            let gs = library_json@;
            let prefix = gs.take(k as int);
            assert(gs.take(k + 1) =~= prefix.push(gs[k as int]));
            if k == 0 {
                assert(prefix =~= Seq::<GameView>::empty());
                assert(gs.take(1).drop_first() =~= Seq::<GameView>::empty());
                assert(spec_render_entries(gs.take(1)) =~= spec_render_entry(gs[0]));
                assert(out@ =~= header + spec_render_entries(gs.take(1)));
            } else {
                lemma_render_tail_push(prefix.drop_first(), gs[k as int]);
                assert(prefix.push(gs[k as int]).drop_first() =~= prefix.drop_first().push(
                    gs[k as int],
                ));
                assert(prefix.push(gs[k as int])[0] == prefix[0]);
                assert(out@ =~= header + spec_render_entries(gs.take(k + 1)));
            }
        }
        k = k + 1;
    }
    out.append("]}");
    proof {
        assert(library_json@.take(library_json.games@.len() as int) =~= library_json@);
        assert(out@ =~= spec_render_manifest(library_json@));
    }
    out
}

/// Strips `pat` from the front of `s`, when it stands there.
pub open spec fn spec_strip_prefix(s: Seq<char>, pat: Seq<char>) -> Option<Seq<char>> {
    if s.len() >= pat.len() && s.take(pat.len() as int) == pat {
        Some(s.skip(pat.len() as int))
    } else {
        None
    }
}

/// Parses the characters of a string after its opening quote, up to and
/// including the closing quote: the unescaped content and the unread
/// remainder.
pub open spec fn spec_parse_string_body(s: Seq<char>) -> Option<(Seq<char>, Seq<char>)>
    decreases s.len(),
{
    if s.len() == 0 {
        None
    } else if s[0] == '"' {
        Some((Seq::empty(), s.drop_first()))
    } else if s[0] == '\\' {
        if s.len() >= 2 && (s[1] == '"' || s[1] == '\\') {
            match spec_parse_string_body(s.skip(2)) {
                None => None,
                Some((t, rest)) => Some((seq![s[1]] + t, rest)),
            }
        } else {
            None
        }
    } else {
        match spec_parse_string_body(s.drop_first()) {
            None => None,
            Some((t, rest)) => Some((seq![s[0]] + t, rest)),
        }
    }
}

/// Parses a quoted string from the front of `s`.
pub open spec fn spec_parse_string(s: Seq<char>) -> Option<(Seq<char>, Seq<char>)> {
    if s.len() > 0 && s[0] == '"' {
        spec_parse_string_body(s.drop_first())
    } else {
        None
    }
}

/// Parses one record from the front of `s`: keys in canonical order,
/// canonical values, no whitespace.
pub open spec fn spec_parse_entry(s: Seq<char>) -> Option<(GameView, Seq<char>)> {
    match spec_strip_prefix(s, "{\"game_id\":"@) {
        None => None,
        Some(s1) => match spec_parse_int(s1) {
            None => None,
            Some((game_id, s2)) => match spec_strip_prefix(s2, ",\"upload_id\":"@) {
                None => None,
                Some(s3) => match spec_parse_int(s3) {
                    None => None,
                    Some((upload_id, s4)) => match spec_strip_prefix(s4, ",\"title\":"@) {
                        None => None,
                        Some(s5) => match spec_parse_string(s5) {
                            None => None,
                            Some((title, s6)) => match spec_strip_prefix(
                                s6,
                                ",\"description\":"@,
                            ) {
                                None => None,
                                Some(s7) => match spec_parse_string(s7) {
                                    None => None,
                                    Some((description, s8)) => match spec_strip_prefix(
                                        s8,
                                        ",\"url\":"@,
                                    ) {
                                        None => None,
                                        Some(s9) => match spec_parse_string(s9) {
                                            None => None,
                                            Some((url, s10)) => match spec_strip_prefix(
                                                s10,
                                                ",\"directory\":"@,
                                            ) {
                                                None => None,
                                                Some(s11) => match spec_parse_string(s11) {
                                                    None => None,
                                                    Some((directory, s12)) => match
                                                        spec_strip_prefix(s12, "}"@) {
                                                        None => None,
                                                        Some(s13) => Some(
                                                            (
                                                                GameView {
                                                                    game_id,
                                                                    upload_id,
                                                                    title,
                                                                    description,
                                                                    url,
                                                                    directory,
                                                                },
                                                                s13,
                                                            ),
                                                        ),
                                                    },
                                                },
                                            },
                                        },
                                    },
                                },
                            },
                        },
                    },
                },
            },
        },
    }
}

/// Parses the records after the first: either a comma and a record, again
/// and again, or the exact closing characters of the document.
pub open spec fn spec_parse_entry_tail(s: Seq<char>, acc: Seq<GameView>) -> Option<
    Seq<GameView>,
>
    decreases s.len(),
{
    if s.len() > 0 && s[0] == ',' {
        match spec_parse_entry(s.drop_first()) {
            None => None,
            Some((g, rest)) => {
                if rest.len() < s.len() {
                    spec_parse_entry_tail(rest, acc.push(g))
                } else {
                    None
                }
            },
        }
    } else if s == seq![']', '}'] {
        Some(acc)
    } else {
        None
    }
}

/// Parses a whole manifest document: the canonical form and nothing else.
pub open spec fn spec_parse_manifest(s: Seq<char>) -> Option<Seq<GameView>> {
    match spec_strip_prefix(s, "{\"games\":["@) {
        None => None,
        Some(s1) => {
            if s1.len() > 0 && s1[0] == ']' {
                if s1 == seq![']', '}'] {
                    Some(Seq::empty())
                } else {
                    None
                }
            } else {
                match spec_parse_entry(s1) {
                    None => None,
                    Some((g, s2)) => spec_parse_entry_tail(s2, seq![g]),
                }
            }
        },
    }
}

/// Checks for `lit` at position `i` of `s`: the position after it, or
/// `None` exactly when [`spec_strip_prefix`] rejects what stands there.
fn expect_lit(s: &str, i: usize, lit: &str) -> (r: Option<usize>)
    requires
        i <= s@.len(),
    ensures
        match r {
            None => spec_strip_prefix(s@.skip(i as int), lit@) is None,
            Some(j) => i <= j <= s@.len() && j - i == lit@.len() && spec_strip_prefix(
                s@.skip(i as int),
                lit@,
            ) == Some(s@.skip(j as int)),
        },
{
    let s_len = s.unicode_len();
    let l_len = lit.unicode_len();
    if l_len > s_len - i {
        return None;
    }
    let mut k: usize = 0;
    while k < l_len
        invariant
            0 <= k <= l_len,
            i + l_len <= s_len,
            s_len == s@.len(),
            l_len == lit@.len(),
            forall|y: int| 0 <= y < k ==> s@[i + y] == lit@[y],
        decreases l_len - k,
    {
        if s.get_char(i + k) != lit.get_char(k) {
            proof {
                assert(s@.skip(i as int).take(lit@.len() as int)[k as int] != lit@[k as int]);
            }
            return None;
        }
        k = k + 1;
    }
    proof {
        assert(s@.skip(i as int).take(lit@.len() as int) =~= lit@);
        assert(s@.skip(i as int).skip(lit@.len() as int) =~= s@.skip(i + lit@.len()));
    }
    Some(i + l_len)
}

/// Parses a quoted string starting at position `i` of `s`: its unescaped
/// content and the position after the closing quote, or `None` exactly when
/// [`spec_parse_string`] rejects what stands there.
#[verifier::loop_isolation(false)]
fn parse_string_at(s: &str, i: usize) -> (r: Option<(String, usize)>)
    requires
        i <= s@.len(),
    ensures
        match r {
            None => spec_parse_string(s@.skip(i as int)) is None,
            Some((out, j)) => i < j <= s@.len() && spec_parse_string(s@.skip(i as int)) == Some(
                (out@, s@.skip(j as int)),
            ),
        },
{
    let s_len = s.unicode_len();
    if i >= s_len || s.get_char(i) != '"' {
        return None;
    }
    let mut out = String::new();
    let mut cur = i + 1;
    proof {
        assert(s@.skip(i as int).drop_first() =~= s@.skip(i + 1));
    }
    while cur < s_len
        invariant
            i + 1 <= cur <= s_len,
            s_len == s@.len(),
            match spec_parse_string_body(s@.skip(cur as int)) {
                None => spec_parse_string_body(s@.skip(i + 1)) is None,
                Some((t2, rest)) => spec_parse_string_body(s@.skip(i + 1)) == Some(
                    (out@ + t2, rest),
                ),
            },
        decreases s_len - cur,
    {
        let c = s.get_char(cur);
        if c == '"' {
            proof {
                assert(s@.skip(cur as int).drop_first() =~= s@.skip(cur + 1));
                let t2 = Seq::<char>::empty();
                assert(out@ + t2 =~= out@);
            }
            return Some((out, cur + 1));
        } else if c == '\\' {
            if cur + 1 < s_len {
                let e = s.get_char(cur + 1);
                if e == '"' || e == '\\' {
                    let ghost out0 = out@;
                    if e == '"' {
                        out.append("\"");
                        proof {
                            reveal_strlit("\"");
                        }
                    } else {
                        out.append("\\");
                        proof {
                            reveal_strlit("\\");
                        }
                    }
                    proof {
                        assert(out@ =~= out0.push(e));
                        assert(s@.skip(cur as int).skip(2) =~= s@.skip(cur + 2));
                        assert(s@.skip(cur as int)[1] == e);
                        match spec_parse_string_body(s@.skip(cur + 2)) {
                            None => {},
                            Some((t2, rest)) => {
                                assert(out0.push(e) + t2 =~= out0 + (seq![e] + t2));
                            },
                        }
                    }
                    cur = cur + 2;
                } else {
                    proof {
                        assert(s@.skip(cur as int)[1] == e);
                    }
                    return None;
                }
            } else {
                proof {
                    assert(s@.skip(cur as int).len() < 2);
                }
                return None;
            }
        } else {
            let ghost out0 = out@;
            let piece = s.substring_char(cur, cur + 1);
            out.append(piece);
            proof {
                assert(out@ =~= out0.push(c));
                assert(s@.skip(cur as int).drop_first() =~= s@.skip(cur + 1));
                match spec_parse_string_body(s@.skip(cur + 1)) {
                    None => {},
                    Some((t2, rest)) => {
                        assert(out0.push(c) + t2 =~= out0 + (seq![c] + t2));
                    },
                }
            }
            cur = cur + 1;
        }
    }
    proof {
        assert(s@.skip(cur as int) =~= Seq::<char>::empty());
    }
    None
}

/// Parses one record starting at position `i` of `s`: the record and the
/// position after it, or `None` exactly when [`spec_parse_entry`] rejects
/// what stands there.
#[verifier::rlimit(100)]
fn parse_entry_at(s: &str, i: usize) -> (r: Option<(GameJson, usize)>)
    requires
        i <= s@.len(),
    ensures
        match r {
            None => spec_parse_entry(s@.skip(i as int)) is None,
            Some((g, j)) => i < j <= s@.len() && spec_parse_entry(s@.skip(i as int)) == Some(
                (g@, s@.skip(j as int)),
            ),
        },
{
    let i1 = match expect_lit(s, i, "{\"game_id\":") {
        Some(j) => j,
        None => {
            return None;
        },
    };
    let (game_id, i2) = match parse_int_at(s, i1) {
        Some(x) => x,
        None => {
            return None;
        },
    };
    let i3 = match expect_lit(s, i2, ",\"upload_id\":") {
        Some(j) => j,
        None => {
            return None;
        },
    };
    let (upload_id, i4) = match parse_int_at(s, i3) {
        Some(x) => x,
        None => {
            return None;
        },
    };
    let i5 = match expect_lit(s, i4, ",\"title\":") {
        Some(j) => j,
        None => {
            return None;
        },
    };
    let (title, i6) = match parse_string_at(s, i5) {
        Some(x) => x,
        None => {
            return None;
        },
    };
    let i7 = match expect_lit(s, i6, ",\"description\":") {
        Some(j) => j,
        None => {
            return None;
        },
    };
    let (description, i8) = match parse_string_at(s, i7) {
        Some(x) => x,
        None => {
            return None;
        },
    };
    let i9 = match expect_lit(s, i8, ",\"url\":") {
        Some(j) => j,
        None => {
            return None;
        },
    };
    let (url, i10) = match parse_string_at(s, i9) {
        Some(x) => x,
        None => {
            return None;
        },
    };
    let i11 = match expect_lit(s, i10, ",\"directory\":") {
        Some(j) => j,
        None => {
            return None;
        },
    };
    let (directory, i12) = match parse_string_at(s, i11) {
        Some(x) => x,
        None => {
            return None;
        },
    };
    let i13 = match expect_lit(s, i12, "}") {
        Some(j) => j,
        None => {
            return None;
        },
    };
    let g = GameJson { game_id, upload_id, title, description, url, directory };
    Some((g, i13))
}

/// Parses a whole manifest document: the records of the canonical document
/// `s`, or [`DownloadError::ManifestCorrupt`] exactly when `s` is not one.
#[verifier::rlimit(100)]
pub fn parse_manifest(s: &str) -> (r: Result<LibraryJson, DownloadError>)
    ensures
        match spec_parse_manifest(s@) {
            Some(gs) => r matches Ok(lj) && lj@ == gs,
            None => r matches Err(e) && e is ManifestCorrupt,
        },
{
    let s_len = s.unicode_len();
    proof {
        assert(s@.skip(0) =~= s@);
    }
    let i = match expect_lit(s, 0, "{\"games\":[") {
        Some(j) => j,
        None => {
            return Err(DownloadError::ManifestCorrupt);
        },
    };
    let mut games: Vec<GameJson> = Vec::new();
    if i < s_len && s.get_char(i) == ']' {
        if s_len - i == 2 && s.get_char(i + 1) == '}' {
            proof {
                assert(s@.skip(i as int) =~= seq![']', '}']);
            }
            let r = LibraryJson { games };
            assert(r@ =~= Seq::<GameView>::empty());
            return Ok(r);
        } else {
            proof {
                if s@.skip(i as int) == seq![']', '}'] {
                    assert(s@.skip(i as int).len() == 2);
                    assert(s@[i + 1] == '}');
                }
            }
            return Err(DownloadError::ManifestCorrupt);
        }
    }
    proof {
        if i < s@.len() {
            assert(s@.skip(i as int)[0] == s@[i as int]);
        }
    }
    let (g0, first_end) = match parse_entry_at(s, i) {
        Some(x) => x,
        None => {
            proof {
                if i >= s@.len() {
                    assert(s@.skip(i as int).len() == 0);
                }
            }
            return Err(DownloadError::ManifestCorrupt);
        },
    };
    games.push(g0);
    proof {
        assert(games@.map_values(|g: GameJson| g@) =~= seq![g0@]);
    }
    let mut cur = first_end;
    while cur < s_len && s.get_char(cur) == ','
        invariant
            i < cur <= s_len,
            s_len == s@.len(),
            match spec_parse_entry_tail(s@.skip(cur as int), games@.map_values(|g: GameJson| g@)) {
                Some(gs) => spec_parse_manifest(s@) == Some(gs),
                None => spec_parse_manifest(s@) is None,
            },
        decreases s_len - cur,
    {
        proof {
            assert(s@.skip(cur as int)[0] == ',');
            assert(s@.skip(cur as int).drop_first() =~= s@.skip(cur + 1));
        }
        let (g, next) = match parse_entry_at(s, cur + 1) {
            Some(x) => x,
            None => {
                return Err(DownloadError::ManifestCorrupt);
            },
        };
        let ghost games0 = games@.map_values(|g: GameJson| g@);
        games.push(g);
        proof {
            assert(games@.map_values(|g: GameJson| g@) =~= games0.push(g@));
            assert(s@.skip(next as int).len() < s@.skip(cur as int).len());
        }
        cur = next;
    }
    proof {
        if cur < s@.len() {
            assert(s@.skip(cur as int)[0] == s@[cur as int]);
            assert(s@.skip(cur as int)[0] != ',');
        } else {
            assert(s@.skip(cur as int).len() == 0);
        }
    }
    if s_len - cur == 2 && s.get_char(cur) == ']' && s.get_char(cur + 1) == '}' {
        proof {
            assert(s@.skip(cur as int) =~= seq![']', '}']);
        }
        let r = LibraryJson { games };
        return Ok(r);
    }
    proof {
        if s@.skip(cur as int) == seq![']', '}'] {
            assert(s@.skip(cur as int).len() == 2);
            assert(s@[cur as int] == ']');
            assert(s@[cur + 1] == '}');
        }
    }
    Err(DownloadError::ManifestCorrupt)
}

/// Stripping a prefix that stands there yields what follows it.
proof fn lemma_strip_prefix_of(pat: Seq<char>, rest: Seq<char>)
    ensures
        spec_strip_prefix(pat + rest, pat) == Some(rest),
{
    assert((pat + rest).take(pat.len() as int) =~= pat);
    assert((pat + rest).skip(pat.len() as int) =~= rest);
}

/// Round trip of string bodies: parsing the escaped characters followed by
/// the closing quote yields the original characters and the remainder.
proof fn lemma_parse_string_body_round(t: Seq<char>, rest: Seq<char>)
    ensures
        spec_parse_string_body(spec_escape(t) + seq!['"'] + rest) == Some((t, rest)),
    decreases t.len(),
{
    assert('"' as u32 == 34);
    assert('\\' as u32 == 92);
    let s = spec_escape(t) + seq!['"'] + rest;
    if t.len() == 0 {
        assert(spec_escape(t) =~= Seq::<char>::empty());
        assert(s[0] == '"');
        assert(s.drop_first() =~= rest);
        assert(t =~= Seq::<char>::empty());
    } else {
        lemma_parse_string_body_round(t.drop_first(), rest);
        let c = t[0];
        assert(spec_escape(t) == spec_escape_char(c) + spec_escape(t.drop_first()));
        if c == '"' || c == '\\' {
            assert(spec_escape_char(c) =~= seq!['\\', c]);
            assert(s[0] == '\\');
            assert(s[1] == c);
            assert(s.len() >= 2);
            assert(s.skip(2) =~= spec_escape(t.drop_first()) + seq!['"'] + rest);
            assert(seq![c] + t.drop_first() =~= t);
        } else {
            assert(spec_escape_char(c) =~= seq![c]);
            assert(s[0] == c);
            assert(s.drop_first() =~= spec_escape(t.drop_first()) + seq!['"'] + rest);
            assert(seq![c] + t.drop_first() =~= t);
        }
    }
}

/// Round trip of strings: parsing a rendered string yields its characters
/// and the remainder.
proof fn lemma_parse_string_round(t: Seq<char>, rest: Seq<char>)
    ensures
        spec_parse_string(spec_render_string(t) + rest) == Some((t, rest)),
{
    let s = spec_render_string(t) + rest;
    assert(s[0] == '"');
    assert(s.drop_first() =~= spec_escape(t) + seq!['"'] + rest);
    lemma_parse_string_body_round(t, rest);
}

/// True when both identifiers of a record fit the persisted integer type.
pub open spec fn spec_ids_in_range(g: GameView) -> bool {
    &&& i64::MIN <= g.game_id <= i64::MAX
    &&& i64::MIN <= g.upload_id <= i64::MAX
}

/// Round trip of records: parsing a rendered record yields the record and
/// the remainder.
#[verifier::rlimit(100)]
proof fn lemma_parse_entry_round(g: GameView, rest: Seq<char>)
    requires
        spec_ids_in_range(g),
    ensures
        spec_parse_entry(spec_render_entry(g) + rest) == Some((g, rest)),
{
    assert(',' as u32 == 44);
    reveal_strlit("{\"game_id\":");
    reveal_strlit(",\"upload_id\":");
    reveal_strlit(",\"title\":");
    reveal_strlit(",\"description\":");
    reveal_strlit(",\"url\":");
    reveal_strlit(",\"directory\":");
    reveal_strlit("}");
    let s = spec_render_entry(g) + rest;
    let r1 = spec_render_int(g.game_id);
    let r2 = spec_render_int(g.upload_id);
    let q1 = spec_render_string(g.title);
    let q2 = spec_render_string(g.description);
    let q3 = spec_render_string(g.url);
    let q4 = spec_render_string(g.directory);
    let t12 = ",\"upload_id\":"@ + r2 + ",\"title\":"@ + q1 + ",\"description\":"@ + q2
        + ",\"url\":"@ + q3 + ",\"directory\":"@ + q4 + "}"@ + rest;
    assert(s =~= "{\"game_id\":"@ + (r1 + t12));
    lemma_strip_prefix_of("{\"game_id\":"@, r1 + t12);
    assert(!crate::numbers::spec_is_digit(t12[0]));
    lemma_parse_render_int(g.game_id, t12);
    let t3 = ",\"title\":"@ + q1 + ",\"description\":"@ + q2 + ",\"url\":"@ + q3
        + ",\"directory\":"@ + q4 + "}"@ + rest;
    assert(t12 =~= ",\"upload_id\":"@ + (r2 + t3));
    lemma_strip_prefix_of(",\"upload_id\":"@, r2 + t3);
    assert(!crate::numbers::spec_is_digit(t3[0]));
    lemma_parse_render_int(g.upload_id, t3);
    let t4 = ",\"description\":"@ + q2 + ",\"url\":"@ + q3 + ",\"directory\":"@ + q4 + "}"@
        + rest;
    assert(t3 =~= ",\"title\":"@ + (q1 + t4));
    lemma_strip_prefix_of(",\"title\":"@, q1 + t4);
    lemma_parse_string_round(g.title, t4);
    let t5 = ",\"url\":"@ + q3 + ",\"directory\":"@ + q4 + "}"@ + rest;
    assert(t4 =~= ",\"description\":"@ + (q2 + t5));
    lemma_strip_prefix_of(",\"description\":"@, q2 + t5);
    lemma_parse_string_round(g.description, t5);
    let t6 = ",\"directory\":"@ + q4 + "}"@ + rest;
    assert(t5 =~= ",\"url\":"@ + (q3 + t6));
    lemma_strip_prefix_of(",\"url\":"@, q3 + t6);
    lemma_parse_string_round(g.url, t6);
    let t7 = "}"@ + rest;
    assert(t6 =~= ",\"directory\":"@ + (q4 + t7));
    lemma_strip_prefix_of(",\"directory\":"@, q4 + t7);
    lemma_parse_string_round(g.directory, t7);
    lemma_strip_prefix_of("}"@, rest);
    assert(spec_parse_entry(s) == Some(
        (
            GameView {
                game_id: g.game_id,
                upload_id: g.upload_id,
                title: g.title,
                description: g.description,
                url: g.url,
                directory: g.directory,
            },
            rest,
        ),
    ));
    assert(GameView {
        game_id: g.game_id,
        upload_id: g.upload_id,
        title: g.title,
        description: g.description,
        url: g.url,
        directory: g.directory,
    } == g);
}

/// Round trip of record lists: parsing the rendered tail followed by the
/// document's closing characters extends the accumulator by the records.
#[verifier::rlimit(100)]
proof fn lemma_parse_tail_round(gs: Seq<GameView>, acc: Seq<GameView>)
    requires
        forall|i: int| 0 <= i < gs.len() ==> spec_ids_in_range(#[trigger] gs[i]),
    ensures
        spec_parse_entry_tail(spec_render_tail(gs) + seq![']', '}'], acc) == Some(acc + gs),
    decreases gs.len(),
{
    assert(',' as u32 == 44);
    assert(']' as u32 == 93);
    let s = spec_render_tail(gs) + seq![']', '}'];
    if gs.len() == 0 {
        assert(spec_render_tail(gs) =~= Seq::<char>::empty());
        assert(s =~= seq![']', '}']);
        assert(s[0] != ',');
        assert(acc + gs =~= acc);
    } else {
        assert(forall|i: int|
            0 <= i < gs.drop_first().len() ==> spec_ids_in_range(
                #[trigger] gs.drop_first()[i],
            )) by {
            assert(forall|i: int|
                0 <= i < gs.drop_first().len() ==> gs.drop_first()[i] == gs[i + 1]);
        }
        lemma_parse_tail_round(gs.drop_first(), acc.push(gs[0]));
        assert(s[0] == ',');
        let after = spec_render_entry(gs[0]) + (spec_render_tail(gs.drop_first()) + seq![
            ']',
            '}',
        ]);
        assert(s.drop_first() =~= after);
        lemma_parse_entry_round(gs[0], spec_render_tail(gs.drop_first()) + seq![']', '}']);
        let rest2 = spec_render_tail(gs.drop_first()) + seq![']', '}'];
        assert(rest2.len() < s.len()) by {
            reveal_strlit("{\"game_id\":");
            assert(spec_render_entry(gs[0]).len() >= 1);
        }
        assert(acc.push(gs[0]) + gs.drop_first() =~= acc + gs);
    }
}

/// Round trip of manifests: parsing a rendered manifest yields exactly the
/// records it was rendered from.  Holds for every manifest whose
/// identifiers fit the persisted integer type — which every in-memory
/// manifest satisfies by construction.
#[verifier::rlimit(100)]
pub proof fn lemma_manifest_round_trip(gs: Seq<GameView>)
    requires
        forall|i: int| 0 <= i < gs.len() ==> spec_ids_in_range(#[trigger] gs[i]),
    ensures
        spec_parse_manifest(spec_render_manifest(gs)) == Some(gs),
{
    reveal_strlit("{\"games\":[");
    reveal_strlit("]}");
    reveal_strlit("{\"game_id\":");
    assert(']' as u32 == 93);
    assert('{' as u32 == 123);
    assert('}' as u32 == 125);
    let s = spec_render_manifest(gs);
    assert("]}"@ =~= seq![']', '}']);
    let inner = spec_render_entries(gs) + seq![']', '}'];
    assert(s =~= "{\"games\":["@ + inner);
    lemma_strip_prefix_of("{\"games\":["@, inner);
    if gs.len() == 0 {
        assert(spec_render_entries(gs) =~= Seq::<char>::empty());
        assert(inner =~= seq![']', '}']);
        assert(Seq::<GameView>::empty() =~= gs);
    } else {
        let tail_part = spec_render_tail(gs.drop_first()) + seq![']', '}'];
        assert(inner =~= spec_render_entry(gs[0]) + tail_part);
        assert(inner[0] == '{');
        assert(inner[0] != ']');
        lemma_parse_entry_round(gs[0], tail_part);
        assert(forall|i: int|
            0 <= i < gs.drop_first().len() ==> spec_ids_in_range(
                #[trigger] gs.drop_first()[i],
            )) by {
            assert(forall|i: int|
                0 <= i < gs.drop_first().len() ==> gs.drop_first()[i] == gs[i + 1]);
        }
        lemma_parse_tail_round(gs.drop_first(), seq![gs[0]]);
        assert(seq![gs[0]] + gs.drop_first() =~= gs);
    }
}

} // verus!
