//! The plain-text token file (`~/.flickr_tokens`): what is written and how
//! it is read back.

use vstd::prelude::*;
use crate::oauth::AuthError;
use crate::oauth::join;
use crate::text::{
    find_char, is_white_space, lemma_find_char_spec, lemma_trimmed_ends, split_once,
    split_once_spec, str_eq, trim, trim_spec,
};
use crate::types::OAuthTokens;

verus! {

/// A line without its trailing carriage return.
pub open spec fn strip_cr(l: Seq<char>) -> Seq<char> {
    if l.len() > 0 && l.last() == '\r' {
        l.drop_last()
    } else {
        l
    }
}

/// The lines of `s`, as `str::lines` yields them: split at `\n`, a `\r`
/// before the `\n` removed, no empty line after a final `\n`.
pub open spec fn lines_spec(s: Seq<char>) -> Seq<Seq<char>>
    decreases s.len(),
{
    if s.len() == 0 {
        Seq::empty()
    } else {
        match find_char(s, '\n') {
            Some(i) => if i < s.len() {
                seq![strip_cr(s.take(i as int))] + lines_spec(s.skip((i + 1) as int))
            } else {
                seq![s]
            },
            None => seq![s],
        }
    }
}

proof fn lemma_find_char_at(s: Seq<char>, c: char, i: int)
    requires
        0 <= i < s.len(),
        s[i] == c,
        forall|j: int| 0 <= j < i ==> #[trigger] s[j] != c,
    ensures
        find_char(s, c) == Some(i as nat),
    decreases i,
{
    if i > 0 {
        assert forall|j: int| 0 <= j < i - 1 implies #[trigger] s.drop_first()[j] != c by {
            assert(s.drop_first()[j] == s[j + 1]);
        }
        lemma_find_char_at(s.drop_first(), c, i - 1);
    }
}

proof fn lemma_find_char_absent(s: Seq<char>, c: char)
    requires
        forall|j: int| 0 <= j < s.len() ==> #[trigger] s[j] != c,
    ensures
        find_char(s, c) is None,
    decreases s.len(),
{
    if s.len() > 0 {
        assert forall|j: int| 0 <= j < s.len() - 1 implies #[trigger] s.drop_first()[j] != c by {
            assert(s.drop_first()[j] == s[j + 1]);
        }
        lemma_find_char_absent(s.drop_first(), c);
    }
}

/// A line break ending `s`, if there is one.
pub open spec fn final_break(s: Seq<char>) -> Seq<char> {
    if s.len() > 0 && s.last() == '\n' {
        seq!['\n']
    } else {
        Seq::empty()
    }
}

proof fn lemma_join_cons(a: Seq<char>, l: Seq<Seq<char>>, sep: Seq<char>)
    requires
        l.len() > 0,
    ensures
        join(seq![a] + l, sep) == a + sep + join(l, sep),
    decreases l.len(),
{
    let t = seq![a] + l;
    if l.len() == 1 {
        assert(t.drop_last() =~= seq![a]);
        assert(t.last() == l[0]);
        assert(join(seq![a], sep) == a);
        assert(join(l, sep) == l[0]);
        assert(join(t, sep) == join(t.drop_last(), sep) + sep + t.last());
    } else {
        lemma_join_cons(a, l.drop_last(), sep);
        assert(t.drop_last() =~= seq![a] + l.drop_last());
        assert(t.last() == l.last());
        assert(join(t, sep) == join(t.drop_last(), sep) + sep + t.last());
        assert(join(l, sep) == join(l.drop_last(), sep) + sep + l.last());
        assert(join(t, sep) =~= a + sep + join(l, sep));
    }
}

proof fn lemma_lines_nonempty(s: Seq<char>)
    requires
        s.len() > 0,
    ensures
        lines_spec(s).len() > 0,
{
}

/// Splitting into lines loses no text: with no carriage return in `s`, the
/// lines joined by line breaks, plus the break that may end `s`, give `s`
/// back; and no line holds a line break.
pub proof fn lemma_lines_rebuild(s: Seq<char>)
    requires
        !s.contains('\r'),
    ensures
        join(lines_spec(s), seq!['\n']) + final_break(s) == s,
        forall|k: int| 0 <= k < lines_spec(s).len() ==> !(#[trigger] lines_spec(s)[k]).contains(
            '\n',
        ),
    decreases s.len(),
{
    if s.len() == 0 {
        assert(join(lines_spec(s), seq!['\n']) + final_break(s) =~= s);
    } else {
        lemma_find_char_spec(s, '\n');
        match find_char(s, '\n') {
            Some(i) => {
                let a = s.take(i as int);
                let rest = s.skip((i + 1) as int);
                assert(!a.contains('\r')) by {
                    assert forall|j: int| 0 <= j < a.len() implies a[j] != '\r' by {
                        assert(a[j] == s[j]);
                    }
                }
                assert(strip_cr(a) == a) by {
                    if a.len() > 0 {
                        assert(a.last() == s[a.len() - 1]);
                    }
                }
                assert(!a.contains('\n')) by {
                    assert forall|j: int| 0 <= j < a.len() implies a[j] != '\n' by {
                        assert(a[j] == s[j]);
                    }
                }
                assert(!rest.contains('\r')) by {
                    assert forall|j: int| 0 <= j < rest.len() implies rest[j] != '\r' by {
                        assert(rest[j] == s[j + i + 1]);
                    }
                }
                lemma_lines_rebuild(rest);
                let ls = lines_spec(s);
                assert(ls == seq![a] + lines_spec(rest));
                if rest.len() == 0 {
                    assert(lines_spec(rest).len() == 0);
                    assert(ls =~= seq![a]);
                    assert(s.last() == '\n');
                    assert(join(ls, seq!['\n']) + final_break(s) =~= s);
                } else {
                    lemma_lines_nonempty(rest);
                    lemma_join_cons(a, lines_spec(rest), seq!['\n']);
                    assert(s.last() == rest.last());
                    assert(final_break(s) == final_break(rest));
                    assert(join(ls, seq!['\n']) + final_break(s) =~= a + seq!['\n'] + (join(
                        lines_spec(rest),
                        seq!['\n'],
                    ) + final_break(rest)));
                    assert(s =~= a + seq!['\n'] + rest);
                }
                assert forall|k: int| 0 <= k < ls.len() implies !(#[trigger] ls[k]).contains('\n') by {
                    if k > 0 {
                        assert(ls[k] == lines_spec(rest)[k - 1]);
                    }
                }
            },
            None => {
                assert(lines_spec(s) =~= seq![s]);
                assert(final_break(s) =~= Seq::<char>::empty());
                assert(join(lines_spec(s), seq!['\n']) + final_break(s) =~= s);
            },
        }
    }
}

fn strip_cr_exec(l: &str) -> (r: String)
    ensures
        r@ == strip_cr(l@),
{
    let n = l.unicode_len();
    if n > 0 && l.get_char(n - 1) == '\r' {
        let t = l.substring_char(0, n - 1);
        proof {
            assert(t@ =~= l@.drop_last());
        }
        t.to_owned()
    } else {
        l.to_owned()
    }
}

/// `s.lines()` of std, collected.
pub fn split_lines(s: &str) -> (r: Vec<String>)
    ensures
        r@.map_values(|p: String| p@) == lines_spec(s@),
{
    let n = s.unicode_len();
    let mut lines: Vec<String> = Vec::new();
    let mut start: usize = 0;
    let mut i: usize = 0;
    proof {
        assert(s@.skip(0) =~= s@);
        assert(lines@.map_values(|p: String| p@) + lines_spec(s@) =~= lines_spec(s@));
    }
    while i < n
        invariant
            n == s@.len(),
            start <= i <= n,
            forall|j: int| start <= j < i ==> #[trigger] s@[j] != '\n',
            lines@.map_values(|p: String| p@) + lines_spec(s@.skip(start as int)) == lines_spec(
                s@,
            ),
        decreases n - i,
    {
        if s.get_char(i) == '\n' {
            let piece = s.substring_char(start, i);
            let line = strip_cr_exec(piece);
            proof {
                let rest = s@.skip(start as int);
                assert forall|j: int| 0 <= j < (i - start) implies #[trigger] rest[j] != '\n' by {
                    assert(rest[j] == s@[start + j]);
                }
                assert(rest[(i - start) as int] == s@[i as int]);
                lemma_find_char_at(rest, '\n', (i - start) as int);
                assert(rest.take((i - start) as int) =~= piece@);
                assert(rest.skip((i - start) + 1) =~= s@.skip(i + 1));
                assert(lines_spec(rest) == seq![line@] + lines_spec(s@.skip(i + 1)));
                assert(lines@.push(line).map_values(|p: String| p@) =~= lines@.map_values(
                    |p: String| p@,
                ).push(line@));
            }
            lines.push(line);
            start = i + 1;
        }
        i = i + 1;
    }
    if start < n {
        let last = s.substring_char(start, n).to_owned();
        proof {
            let rest = s@.skip(start as int);
            assert forall|j: int| 0 <= j < rest.len() implies #[trigger] rest[j] != '\n' by {
                assert(rest[j] == s@[start + j]);
            }
            lemma_find_char_absent(rest, '\n');
            assert(last@ =~= rest);
            assert(lines@.push(last).map_values(|p: String| p@) =~= lines@.map_values(
                |p: String| p@,
            ).push(last@));
        }
        lines.push(last);
    } else {
        proof {
            assert(s@.skip(start as int).len() == 0);
            assert(lines@.map_values(|p: String| p@) + lines_spec(s@.skip(start as int))
                =~= lines@.map_values(|p: String| p@));
        }
    }
    lines
}

/// A line ended by `\r\n` loses both characters, and a last line without
/// a line break is kept whole (a carriage return included).
pub proof fn lemma_lines_crlf(a: Seq<char>, rest: Seq<char>)
    requires
        !a.contains('\n'),
    ensures
        lines_spec(a + seq!['\r', '\n'] + rest) == seq![a] + lines_spec(rest),
        a.len() > 0 ==> lines_spec(a) == seq![a],
{
    let ar = a.push('\r');
    assert(!ar.contains('\n')) by {
        assert forall|j: int| 0 <= j < ar.len() implies ar[j] != '\n' by {
            if j < a.len() {
                assert(ar[j] == a[j]);
            }
        }
    }
    lemma_lines_cons(ar, rest);
    assert(ar + seq!['\n'] + rest =~= a + seq!['\r', '\n'] + rest);
    assert(strip_cr(ar) =~= a);
    if a.len() > 0 {
        lemma_find_char_absent(a, '\n');
    }
}

/// The content written to the token file.
pub open spec fn token_file_spec(t: OAuthTokens) -> Seq<char> {
    let c = "oauth_token="@ + t.oauth_token@ + "\noauth_token_secret="@ + t.oauth_token_secret@
        + "\n"@;
    match t.fullname {
        Some(f) => c + "fullname="@ + f@ + "\n"@,
        None => c,
    }
}

/// The content of the token file for `tokens`: token, secret and, when
/// known, the full name, one `key=value` per line.
pub fn token_file_content(tokens: &OAuthTokens) -> (r: String)
    ensures
        r@ == token_file_spec(*tokens),
{
    let mut c = "oauth_token=".to_owned();
    c.append(tokens.oauth_token.as_str());
    c.append("\noauth_token_secret=");
    c.append(tokens.oauth_token_secret.as_str());
    c.append("\n");
    match &tokens.fullname {
        Some(f) => {
            c.append("fullname=");
            c.append(f.as_str());
            c.append("\n");
        },
        None => {},
    }
    c
}

/// The token and secret after reading one more line: a `key=value` line
/// whose trimmed key is `oauth_token` or `oauth_token_secret` sets that
/// field to the trimmed value; other lines change nothing.
pub open spec fn token_line_step(acc: (Seq<char>, Seq<char>), line: Seq<char>) -> (
    Seq<char>,
    Seq<char>,
) {
    match split_once_spec(line, '=') {
        Some(kv) => {
            let k = trim_spec(kv.0);
            if k == "oauth_token"@ {
                (trim_spec(kv.1), acc.1)
            } else if k == "oauth_token_secret"@ {
                (acc.0, trim_spec(kv.1))
            } else {
                acc
            }
        },
        None => acc,
    }
}

/// Token and secret as the token file gives them (empty when absent).
pub open spec fn token_file_fields(content: Seq<char>) -> (Seq<char>, Seq<char>) {
    lines_spec(content).fold_left(
        (Seq::<char>::empty(), Seq::<char>::empty()),
        |acc: (Seq<char>, Seq<char>), l: Seq<char>| token_line_step(acc, l),
    )
}

/// Reads the token file: `Ok` with token and secret (the other fields
/// `None`) when both are present and non-empty, else `NoTokens`.
pub fn parse_token_file(content: &str) -> (r: Result<OAuthTokens, AuthError>)
    ensures
        ({
            let f = token_file_fields(content@);
            if f.0.len() > 0 && f.1.len() > 0 {
                r matches Ok(t) && t.oauth_token@ == f.0 && t.oauth_token_secret@ == f.1
                    && t.fullname is None && t.user_nsid is None && t.username is None
            } else {
                r matches Err(AuthError::NoTokens)
            }
        }),
{
    let lines = split_lines(content);
    let ghost views = lines@.map_values(|p: String| p@);
    let mut oauth_token = String::new();
    let mut oauth_token_secret = String::new();
    let mut i: usize = 0;
    proof {
        assert(views.take(0) =~= Seq::<Seq<char>>::empty());
    }
    while i < lines.len()
        invariant
            views == lines@.map_values(|p: String| p@),
            views == lines_spec(content@),
            i <= lines@.len(),
            (oauth_token@, oauth_token_secret@) == views.take(i as int).fold_left(
                (Seq::<char>::empty(), Seq::<char>::empty()),
                |acc: (Seq<char>, Seq<char>), l: Seq<char>| token_line_step(acc, l),
            ),
        decreases lines@.len() - i,
    {
        proof {
            assert(views.take(i + 1).drop_last() =~= views.take(i as int));
            assert(views.take(i + 1).last() == lines@[i as int]@);
        }
        let ghost acc = (oauth_token@, oauth_token_secret@);
        match split_once(lines[i].as_str(), '=') {
            Some((k, v)) => {
                let key = trim(k.as_str());
                if str_eq(key.as_str(), "oauth_token") {
                    oauth_token = trim(v.as_str());
                } else if str_eq(key.as_str(), "oauth_token_secret") {
                    oauth_token_secret = trim(v.as_str());
                }
            },
            None => {},
        }
        proof {
            assert((oauth_token@, oauth_token_secret@) == token_line_step(acc, lines@[i as int]@));
        }
        i = i + 1;
    }
    proof {
        assert(views.take(lines@.len() as int) =~= views);
    }
    if oauth_token.as_str().unicode_len() > 0 && oauth_token_secret.as_str().unicode_len() > 0 {
        Ok(
            OAuthTokens {
                oauth_token,
                oauth_token_secret,
                fullname: None,
                user_nsid: None,
                username: None,
            },
        )
    } else {
        Err(AuthError::NoTokens)
    }
}

// ── reading back what was written ────────────────────────────────────────

proof fn lemma_lines_cons(a: Seq<char>, rest: Seq<char>)
    requires
        !a.contains('\n'),
    ensures
        lines_spec(a + seq!['\n'] + rest) == seq![strip_cr(a)] + lines_spec(rest),
{
    let s = a + seq!['\n'] + rest;
    assert forall|j: int| 0 <= j < a.len() implies #[trigger] s[j] != '\n' by {
        assert(s[j] == a[j]);
    }
    assert(s[a.len() as int] == '\n');
    lemma_find_char_at(s, '\n', a.len() as int);
    assert(s.take(a.len() as int) =~= a);
    assert(s.skip(a.len() + 1int) =~= rest);
}

proof fn lemma_split_key_line(key: Seq<char>, val: Seq<char>)
    requires
        !key.contains('='),
    ensures
        split_once_spec(key + seq!['='] + val, '=') == Some((key, val)),
{
    let s = key + seq!['='] + val;
    assert forall|j: int| 0 <= j < key.len() implies #[trigger] s[j] != '=' by {
        assert(s[j] == key[j]);
    }
    assert(s[key.len() as int] == '=');
    lemma_find_char_at(s, '=', key.len() as int);
    assert(s.take(key.len() as int) =~= key);
    assert(s.skip(key.len() + 1int) =~= val);
}

proof fn lemma_trim_plain(k: Seq<char>)
    requires
        k.len() > 0,
        !is_white_space(k[0]),
        !is_white_space(k.last()),
    ensures
        trim_spec(k) == k,
{
    assert(k.skip(0) =~= k);
    assert(k.take(k.len() as int) =~= k);
}

/// The line `key=value` of the token file, read when the value is a plain
/// token: it sets the field of `key` to `value`.
proof fn lemma_token_line(key: Seq<char>, val: Seq<char>, acc: (Seq<char>, Seq<char>))
    requires
        key == "oauth_token"@ || key == "oauth_token_secret"@,
        val.len() > 0,
        trim_spec(val) == val,
    ensures
        strip_cr(key + seq!['='] + val) == key + seq!['='] + val,
        key == "oauth_token"@ ==> token_line_step(acc, key + seq!['='] + val) == (val, acc.1),
        key == "oauth_token_secret"@ ==> token_line_step(acc, key + seq!['='] + val) == (
            acc.0,
            val,
        ),
{
    reveal_strlit("oauth_token");
    reveal_strlit("oauth_token_secret");
    lemma_trimmed_ends(val);
    let line = key + seq!['='] + val;
    assert(line.last() == val.last());
    lemma_split_key_line(key, val);
    lemma_trim_plain(key);
}

/// Whether reading `line` leaves token and secret as they are: it is no
/// `key=value` line whose trimmed key is `oauth_token` or
/// `oauth_token_secret`.
pub open spec fn leaves_tokens(line: Seq<char>) -> bool {
    match split_once_spec(line, '=') {
        Some(kv) => trim_spec(kv.0) != "oauth_token"@ && trim_spec(kv.0) != "oauth_token_secret"@,
        None => true,
    }
}

/// The entry the full name takes in the token file.
pub open spec fn fullname_entry(f: Seq<char>) -> Seq<char> {
    "fullname="@ + f + "\n"@
}

/// Folding lines that all leave the fields alone changes nothing.
proof fn lemma_fold_leaves_tokens(ls: Seq<Seq<char>>, acc: (Seq<char>, Seq<char>))
    requires
        forall|k: int| 0 <= k < ls.len() ==> leaves_tokens(#[trigger] ls[k]),
    ensures
        ls.fold_left(acc, |a: (Seq<char>, Seq<char>), l: Seq<char>| token_line_step(a, l)) == acc,
    decreases ls.len(),
{
    if ls.len() > 0 {
        let f = |a: (Seq<char>, Seq<char>), l: Seq<char>| token_line_step(a, l);
        assert forall|k: int| 0 <= k < ls.drop_last().len() implies leaves_tokens(
            #[trigger] ls.drop_last()[k],
        ) by {
            assert(ls.drop_last()[k] == ls[k]);
        }
        lemma_fold_leaves_tokens(ls.drop_last(), acc);
        assert(leaves_tokens(ls[ls.len() - 1]));
        assert(ls.fold_left(acc, f) == f(ls.drop_last().fold_left(acc, f), ls.last()));
    }
}

/// Reading back the token file written for `t` gives its token and secret,
/// when both are non-empty, hold no line break and no surrounding
/// whitespace, and no line of the full name's entry sets a token field.
pub proof fn lemma_token_file_round_trip(t: OAuthTokens)
    requires
        t.oauth_token@.len() > 0,
        t.oauth_token_secret@.len() > 0,
        trim_spec(t.oauth_token@) == t.oauth_token@,
        trim_spec(t.oauth_token_secret@) == t.oauth_token_secret@,
        !t.oauth_token@.contains('\n'),
        !t.oauth_token_secret@.contains('\n'),
        t.fullname matches Some(f) ==> forall|k: int|
            0 <= k < lines_spec(fullname_entry(f@)).len() ==> leaves_tokens(
                #[trigger] lines_spec(fullname_entry(f@))[k],
            ),
    ensures
        token_file_fields(token_file_spec(t)) == (t.oauth_token@, t.oauth_token_secret@),
{
    reveal_strlit("oauth_token=");
    reveal_strlit("\noauth_token_secret=");
    reveal_strlit("\n");
    reveal_strlit("fullname=");
    reveal_strlit("oauth_token");
    reveal_strlit("oauth_token_secret");
    let tok = t.oauth_token@;
    let sec = t.oauth_token_secret@;
    let k1 = "oauth_token"@;
    let k2 = "oauth_token_secret"@;
    let l1 = k1 + seq!['='] + tok;
    let l2 = k2 + seq!['='] + sec;
    let e = (Seq::<char>::empty(), Seq::<char>::empty());
    let f = |acc: (Seq<char>, Seq<char>), l: Seq<char>| token_line_step(acc, l);
    assert(!l1.contains('\n')) by {
        assert forall|j: int| 0 <= j < l1.len() implies l1[j] != '\n' by {
            if j >= k1.len() + 1 {
                assert(l1[j] == tok[j - k1.len() - 1]);
            }
        }
    }
    assert(!l2.contains('\n')) by {
        assert forall|j: int| 0 <= j < l2.len() implies l2[j] != '\n' by {
            if j >= k2.len() + 1 {
                assert(l2[j] == sec[j - k2.len() - 1]);
            }
        }
    }
    lemma_token_line(k1, tok, e);
    lemma_token_line(k2, sec, (tok, Seq::<char>::empty()));
    let rest = match t.fullname {
        Some(name) => fullname_entry(name@),
        None => Seq::<char>::empty(),
    };
    assert(token_file_spec(t) =~= l1 + seq!['\n'] + (l2 + seq!['\n'] + rest));
    lemma_lines_cons(l2, rest);
    lemma_lines_cons(l1, l2 + seq!['\n'] + rest);
    let tail = lines_spec(rest);
    let ls = lines_spec(token_file_spec(t));
    assert(ls =~= seq![l1, l2] + tail);
    // The two token lines.
    let s2 = seq![l1, l2];
    assert(s2.drop_last() =~= seq![l1]);
    assert(seq![l1].drop_last() =~= Seq::<Seq<char>>::empty());
    assert(Seq::<Seq<char>>::empty().fold_left(e, f) == e);
    assert(seq![l1].fold_left(e, f) == f(e, l1));
    assert(s2.fold_left(e, f) == f(seq![l1].fold_left(e, f), l2));
    assert(s2.fold_left(e, f) == (tok, sec));
    // The full name's lines leave them alone.
    assert forall|k: int| 0 <= k < tail.len() implies leaves_tokens(#[trigger] tail[k]) by {
        if t.fullname is None {
            assert(tail.len() == 0);
        }
    }
    lemma_fold_leaves_tokens(tail, (tok, sec));
    ls.lemma_fold_left_split(e, f, 2);
    assert(ls.subrange(0, 2) =~= s2);
    assert(ls.subrange(2, ls.len() as int) =~= tail);
    assert(token_file_fields(token_file_spec(t)) == ls.fold_left(e, f));
}

} // verus!
