//! Project names: normalization, local project evidence, relevance of related
//! names, and the selection of projects and named items.

use vstd::prelude::*;

use crate::error::{failure, outcome, CliError, ErrorKind, Failure};
use crate::json::{member, model_items, str_of, u64_of, Json, JsonValue};
use vstd::string::StrSliceExecFns;
use crate::text::{
    chars_of, is_ascii_alnum, starts_with, lower, char_is_alnum, char_lower, string_of, trim, trim_chars,
};

verus! {

/// The maximal runs of ASCII letters and digits in `s`, lower-cased.
pub open spec fn words(s: Seq<char>) -> Seq<Seq<char>>
    decreases s.len(),
{
    if s.len() == 0 {
        Seq::empty()
    } else {
        let w = words(s.drop_last());
        let c = s.last();
        if !is_ascii_alnum(c) {
            w
        } else if s.len() >= 2 && is_ascii_alnum(s[s.len() - 2]) {
            w.update(w.len() - 1, w.last().push(lower(c)))
        } else {
            w.push(seq![lower(c)])
        }
    }
}

/// Words separated by single spaces.
pub open spec fn join_words(ws: Seq<Seq<char>>) -> Seq<char>
    decreases ws.len(),
{
    if ws.len() == 0 {
        Seq::empty()
    } else if ws.len() == 1 {
        ws[0]
    } else {
        join_words(ws.drop_last()) + seq![' '] + ws.last()
    }
}

/// A name as it is compared: its ASCII words, lower-cased, separated by single
/// spaces; every other character separates words.
pub open spec fn normalized(s: Seq<char>) -> Seq<char> {
    join_words(words(s))
}

pub proof fn lemma_words_nonempty(s: Seq<char>)
    ensures
        forall|k: int| 0 <= k < words(s).len() ==> #[trigger] words(s)[k].len() > 0,
        s.len() > 0 && is_ascii_alnum(s.last()) ==> words(s).len() > 0,
    decreases s.len(),
{
    if s.len() > 0 {
        lemma_words_nonempty(s.drop_last());
        let w = words(s.drop_last());
        if is_ascii_alnum(s.last()) && s.len() >= 2 && is_ascii_alnum(s[s.len() - 2]) {
            assert(s.drop_last().last() == s[s.len() - 2]);
        }
    }
}

pub proof fn lemma_join_push(ws: Seq<Seq<char>>, x: Seq<char>)
    ensures
        join_words(ws.push(x)) == if ws.len() == 0 {
            x
        } else {
            join_words(ws) + seq![' '] + x
        },
{
    assert(ws.push(x).drop_last() =~= ws);
}

pub proof fn lemma_join_extend_last(ws: Seq<Seq<char>>, c: char)
    requires
        ws.len() > 0,
    ensures
        join_words(ws.update(ws.len() - 1, ws.last().push(c))) == join_words(ws).push(c),
{
    let u = ws.update(ws.len() - 1, ws.last().push(c));
    if ws.len() > 1 {
        assert(u.drop_last() =~= ws.drop_last());
        assert(join_words(u) =~= join_words(ws).push(c));
    }
}

pub proof fn lemma_join_empty(ws: Seq<Seq<char>>)
    requires
        forall|k: int| 0 <= k < ws.len() ==> #[trigger] ws[k].len() > 0,
    ensures
        (join_words(ws).len() == 0) == (ws.len() == 0),
    decreases ws.len(),
{
    if ws.len() > 1 {
        lemma_join_empty(ws.drop_last());
    }
}

/// A character as it stands in a normalized word.
pub open spec fn word_char(c: char) -> bool {
    is_ascii_alnum(c) && lower(c) == c
}

proof fn lemma_lower_word_char(c: char)
    requires
        is_ascii_alnum(c),
    ensures
        word_char(lower(c)),
{
    if crate::text::is_ascii_upper(c) {
        assert((((c as u32) + 32) as char) as u32 == (c as u32) + 32);
    }
}

proof fn lemma_words_chars(s: Seq<char>)
    ensures
        forall|k: int, j: int|
            0 <= k < words(s).len() && 0 <= j < words(s)[k].len() ==> word_char(#[trigger] words(s)[k][j]),
    decreases s.len(),
{
    if s.len() > 0 {
        let d = s.drop_last();
        lemma_words_chars(d);
        lemma_words_nonempty(d);
        let w = words(d);
        let c = s.last();
        if is_ascii_alnum(c) {
            lemma_lower_word_char(c);
            if s.len() >= 2 && is_ascii_alnum(s[s.len() - 2]) {
                assert(d.last() == s[s.len() - 2]);
                assert(w.len() > 0);
                let ws = words(s);
                assert forall|k: int, j: int| 0 <= k < ws.len() && 0 <= j < ws[k].len() implies word_char(
                    #[trigger] ws[k][j],
                ) by {
                    if k < w.len() - 1 {
                        assert(ws[k] == w[k]);
                    } else if j < w.last().len() {
                        assert(ws[k][j] == w[w.len() - 1][j]);
                    } else {
                        assert(ws[k][j] == lower(c));
                    }
                }
            } else {
                let ws = words(s);
                assert forall|k: int, j: int| 0 <= k < ws.len() && 0 <= j < ws[k].len() implies word_char(
                    #[trigger] ws[k][j],
                ) by {
                    if k < w.len() {
                        assert(ws[k] == w[k]);
                    } else {
                        assert(ws[k][j] == lower(c));
                    }
                }
            }
        }
    }
}

proof fn lemma_words_append(s: Seq<char>, w: Seq<char>)
    requires
        w.len() > 0,
        forall|j: int| 0 <= j < w.len() ==> word_char(#[trigger] w[j]),
        s.len() == 0 || !is_ascii_alnum(s.last()),
    ensures
        words(s + w) == words(s).push(w),
    decreases w.len(),
{
    let t = s + w;
    assert(t.drop_last() =~= s + w.drop_last());
    assert(t.last() == w.last());
    if w.len() == 1 {
        assert(s + w.drop_last() =~= s);
        assert(seq![lower(w.last())] =~= w);
    } else {
        lemma_words_append(s, w.drop_last());
        assert(t[t.len() - 2] == w.drop_last().last());
        assert(word_char(w[w.len() - 1]));
        assert(w.drop_last().push(w.last()) =~= w);
        let prev = words(s).push(w.drop_last());
        assert(prev.update(prev.len() - 1, prev.last().push(lower(w.last()))) =~= words(s).push(w));
    }
}

proof fn lemma_words_join(ws: Seq<Seq<char>>)
    requires
        forall|k: int| 0 <= k < ws.len() ==> #[trigger] ws[k].len() > 0,
        forall|k: int, j: int| 0 <= k < ws.len() && 0 <= j < ws[k].len() ==> word_char(#[trigger] ws[k][j]),
    ensures
        words(join_words(ws)) == ws,
    decreases ws.len(),
{
    if ws.len() == 1 {
        lemma_words_append(Seq::empty(), ws[0]);
        assert(Seq::<char>::empty() + ws[0] =~= ws[0]);
        assert(Seq::<Seq<char>>::empty().push(ws[0]) =~= ws);
    } else if ws.len() > 1 {
        let front = ws.drop_last();
        lemma_words_join(front);
        let j = join_words(front);
        let sp = j.push(' ');
        assert(sp.drop_last() =~= j);
        assert(words(sp) == words(j));
        lemma_words_append(sp, ws.last());
        assert(sp + ws.last() =~= j + seq![' '] + ws.last());
        assert(front.push(ws.last()) =~= ws);
    } else {
        assert(join_words(ws) =~= Seq::<char>::empty());
    }
}

/// Normalizing a normalized name changes nothing.
pub proof fn law_normalize_is_idempotent(s: Seq<char>)
    ensures
        normalized(normalized(s)) == normalized(s),
{
    lemma_words_nonempty(s);
    lemma_words_chars(s);
    lemma_words_join(words(s));
}

/// A normalized name's form: lower-case ASCII letters, digits and single
/// spaces, with no space at either end.
pub open spec fn normal_form(t: Seq<char>) -> bool {
    &&& forall|i: int| 0 <= i < t.len() ==> word_char(#[trigger] t[i]) || t[i] == ' '
    &&& t.len() > 0 ==> t[0] != ' ' && t[t.len() - 1] != ' '
    &&& forall|i: int| 0 <= i < t.len() - 1 && #[trigger] t[i] == ' ' ==> t[i + 1] != ' '
}

proof fn lemma_join_normal_form(ws: Seq<Seq<char>>)
    requires
        forall|k: int| 0 <= k < ws.len() ==> #[trigger] ws[k].len() > 0,
        forall|k: int, j: int| 0 <= k < ws.len() && 0 <= j < ws[k].len() ==> word_char(#[trigger] ws[k][j]),
    ensures
        normal_form(join_words(ws)),
    decreases ws.len(),
{
    if ws.len() == 1 {
        let t = join_words(ws);
        assert(t == ws[0]);
        assert forall|i: int| 0 <= i < t.len() implies word_char(#[trigger] t[i]) || t[i] == ' ' by {
            assert(word_char(ws[0][i]));
        }
        assert(word_char(ws[0][0]));
        assert(word_char(ws[0][t.len() - 1]));
    } else if ws.len() > 1 {
        let front = ws.drop_last();
        lemma_join_normal_form(front);
        lemma_join_empty(front);
        let j = join_words(front);
        let w = ws.last();
        let t = join_words(ws);
        assert(t == j + seq![' '] + w);
        let n = j.len();
        assert(word_char(w[0]));
        assert(word_char(w[w.len() - 1]));
        assert(t[t.len() - 1] == w[w.len() - 1]);
        assert forall|i: int| 0 <= i < t.len() implies word_char(#[trigger] t[i]) || t[i] == ' ' by {
            if i < n {
                assert(t[i] == j[i]);
            } else if i > n {
                assert(t[i] == w[i - n - 1]);
                assert(word_char(w[i - n - 1]));
            }
        }
        assert(t[0] == j[0]);
        assert forall|i: int| 0 <= i < t.len() - 1 && #[trigger] t[i] == ' ' implies t[i + 1] != ' ' by {
            if i < n - 1 {
                assert(t[i] == j[i]);
                assert(t[i + 1] == j[i + 1]);
            } else if i == n - 1 {
                assert(t[i] == j[n - 1]);
            } else if i == n {
                assert(t[i + 1] == w[0]);
            } else {
                assert(t[i] == w[i - n - 1]);
                assert(word_char(w[i - n - 1]));
            }
        }
    }
}

/// A normalized name holds only lower-case ASCII letters, digits and single
/// spaces, with no space at either end.
pub proof fn law_normalized_form(s: Seq<char>)
    ensures
        normal_form(normalized(s)),
{
    lemma_words_nonempty(s);
    lemma_words_chars(s);
    lemma_join_normal_form(words(s));
}

/// Normalizes a name for exact comparison.
pub fn normalize_chars(s: &Vec<char>) -> (r: Vec<char>)
    ensures
        r@ == normalized(s@),
{
    let mut out: Vec<char> = Vec::new();
    let mut i: usize = 0;
    while i < s.len()
        invariant
            i <= s.len(),
            out@ == normalized(s@.take(i as int)),
        decreases s.len() - i,
    {
        let c = s[i];
        let ghost pre = s@.take(i as int);
        let ghost next = s@.take(i + 1);
        assert(next.drop_last() =~= pre);
        proof {
            lemma_words_nonempty(pre);
        }
        if char_is_alnum(c) {
            let lc = char_lower(c);
            if i > 0 && char_is_alnum(s[i - 1]) {
                proof {
                    assert(next[next.len() - 2] == s@[i - 1]);
                    assert(pre.last() == s@[i - 1]);
                    lemma_join_extend_last(words(pre), lc);
                }
                out.push(lc);
            } else {
                proof {
                    if i > 0 {
                        assert(next[next.len() - 2] == s@[i - 1]);
                    }
                    lemma_join_push(words(pre), seq![lc]);
                    lemma_join_empty(words(pre));
                }
                if out.len() > 0 {
                    out.push(' ');
                }
                out.push(lc);
                assert(out@ =~= normalized(next));
            }
        }
        i = i + 1;
    }
    assert(s@.take(s.len() as int) =~= s@);
    out
}

/// Normalizes a name for exact comparison: `My_Project!` becomes `my project`.
pub fn normalize(value: &str) -> (r: String)
    ensures
        r@ == normalized(value@),
{
    string_of(&normalize_chars(&chars_of(value)))
}

/// No two candidates have the same normalized form.
pub open spec fn distinct_normalized(cs: Seq<Seq<char>>) -> bool {
    forall|i: int, j: int| 0 <= i < cs.len() && 0 <= j < cs.len() && i != j ==> normalized(cs[i]) != normalized(cs[j])
}

pub open spec fn has_normalized(cs: Seq<Seq<char>>, n: Seq<char>) -> bool {
    exists|i: int| 0 <= i < cs.len() && normalized(#[trigger] cs[i]) == n
}

/// Whether `value` joins the candidates: trimmed, it is not blank, has a
/// non-empty normalized form, and no candidate normalizes the same way.
pub open spec fn candidate_added(cs: Seq<Seq<char>>, value: Seq<char>) -> bool {
    trim(value).len() > 0 && normalized(trim(value)).len() > 0 && !has_normalized(cs, normalized(trim(value)))
}

pub open spec fn string_views(v: Seq<String>) -> Seq<Seq<char>> {
    v.map_values(|s: String| s@)
}

/// Adds a trimmed name to the project evidence unless it adds nothing new.
pub fn add_project_candidate(candidates: &mut Vec<String>, value: &str)
    ensures
        string_views(final(candidates)@) == if candidate_added(string_views(old(candidates)@), value@) {
            string_views(old(candidates)@).push(trim(value@))
        } else {
            string_views(old(candidates)@)
        },
        distinct_normalized(string_views(old(candidates)@)) ==> distinct_normalized(string_views(final(candidates)@)),
{
    let ghost cs = string_views(candidates@);
    let t = trim_chars(&chars_of(value));
    if t.len() == 0 {
        return;
    }
    let n = normalize_chars(&t);
    if n.len() == 0 {
        return;
    }
    let mut i: usize = 0;
    while i < candidates.len()
        invariant
            i <= candidates.len(),
            cs == string_views(candidates@),
            cs == string_views(old(candidates)@),
            candidates@ == old(candidates)@,
            t@ == trim(value@),
            n@ == normalized(t@),
            forall|k: int| 0 <= k < i ==> normalized(#[trigger] cs[k]) != n@,
        decreases candidates.len() - i,
    {
        let other = normalize(candidates[i].as_str());
        if crate::text::chars_eq(&chars_of(other.as_str()), &n) {
            assert(normalized(cs[i as int]) == n@);
            return;
        }
        i = i + 1;
    }
    candidates.push(string_of(&t));
    assert(string_views(candidates@) =~= cs.push(t@));
}

/// `str::lines`: pieces split at `\n`, each without a final `\r` before the
/// `\n`; a final `\n` ends the last line rather than starting an empty one.
pub open spec fn lines(s: Seq<char>) -> Seq<Seq<char>>
    decreases s.len(),
{
    match crate::text::find_char(s, '\n') {
        None => if s.len() == 0 {
            Seq::empty()
        } else {
            seq![s]
        },
        Some(i) => {
            let line = s.take(i);
            let line = if line.len() > 0 && line.last() == '\r' {
                line.drop_last()
            } else {
                line
            };
            seq![line] + lines(s.skip(i + 1))
        },
    }
}

/// The lines of a text.
#[verifier::rlimit(50)]
pub fn text_lines(s: &Vec<char>) -> (r: Vec<Vec<char>>)
    ensures
        r@.map_values(|l: Vec<char>| l@) == lines(s@),
{
    let mut out: Vec<Vec<char>> = Vec::new();
    assert(s@.skip(0) =~= s@);
    assert(out@.map_values(|l: Vec<char>| l@) =~= Seq::<Seq<char>>::empty());
    assert(Seq::<Seq<char>>::empty() + lines(s@) =~= lines(s@));
    let mut start: usize = 0;
    let mut i: usize = 0;
    while i < s.len()
        invariant
            start <= i <= s.len(),
            forall|j: int| start <= j < i ==> s@[j] != '\n',
            out@.map_values(|l: Vec<char>| l@) + lines(s@.skip(start as int)) == lines(s@),
        decreases s.len() - i,
    {
        if s[i] == '\n' {
            let ghost rest = s@.skip(start as int);
            proof {
                assert(rest[i - start] == '\n');
                assert(crate::text::absent_before(rest, '\n', i - start));
                let w = choose|k: int| 0 <= k < rest.len() && rest[k] == '\n' && crate::text::absent_before(rest, '\n', k);
                if w < i - start {
                    assert(rest[w] == s@[start + w]);
                } else if w > i - start {
                    assert(rest[i - start] != '\n');
                }
                assert(crate::text::find_char(rest, '\n') == Some(i - start));
                assert(rest.skip(i - start + 1) =~= s@.skip(i + 1));
            }
            let mut end = i;
            if end > start && s[end - 1] == '\r' {
                end = end - 1;
            }
            let line = crate::text::slice_chars(s, start, end);
            proof {
                let l = rest.take(i - start);
                if l.len() > 0 && l.last() == '\r' {
                    assert(line@ =~= l.drop_last());
                } else {
                    assert(line@ =~= l);
                }
            }
            let ghost before = out@.map_values(|l: Vec<char>| l@);
            out.push(line);
            assert(out@.map_values(|l: Vec<char>| l@) =~= before.push(line@));
            assert(before.push(line@) + lines(s@.skip(i + 1)) =~= before + (seq![line@] + lines(s@.skip(i + 1))));
            start = i + 1;
        }
        i = i + 1;
    }
    let ghost rest = s@.skip(start as int);
    proof {
        assert forall|k: int| 0 <= k < rest.len() implies rest[k] != '\n' by {
            assert(rest[k] == s@[start + k]);
        }
        assert(crate::text::find_char(rest, '\n') is None);
    }
    if start < s.len() {
        let line = crate::text::slice_chars(s, start, s.len());
        let ghost before = out@.map_values(|l: Vec<char>| l@);
        assert(line@ =~= rest);
        out.push(line);
        assert(out@.map_values(|l: Vec<char>| l@) =~= before.push(rest));
        assert(before.push(rest) =~= before + seq![rest]);
    } else {
        assert(out@.map_values(|l: Vec<char>| l@) + lines(rest) =~= out@.map_values(|l: Vec<char>| l@));
    }
    out
}

/// `str::trim_matches` with the quote characters `"` and `'`.
pub open spec fn trim_quotes(s: Seq<char>) -> Seq<char>
    decreases s.len(),
{
    if s.len() > 0 && (s[0] == '"' || s[0] == '\'') {
        trim_quotes(s.drop_first())
    } else if s.len() > 0 && (s.last() == '"' || s.last() == '\'') {
        trim_quotes(s.drop_last())
    } else {
        s
    }
}

pub fn trim_quote_chars(s: &Vec<char>) -> (r: Vec<char>)
    ensures
        r@ == trim_quotes(s@),
{
    let mut start: usize = 0;
    let mut end: usize = s.len();
    assert(s@.subrange(0, s.len() as int) =~= s@);
    while start < end && (s[start] == '"' || s[start] == '\'')
        invariant
            start <= end == s.len(),
            trim_quotes(s@) == trim_quotes(s@.subrange(start as int, end as int)),
        decreases end - start,
    {
        assert(s@.subrange(start as int, end as int).drop_first() =~= s@.subrange(start + 1, end as int));
        start = start + 1;
    }
    while start < end && (s[end - 1] == '"' || s[end - 1] == '\'')
        invariant
            start <= end <= s.len(),
            start == end || !(s@[start as int] == '"' || s@[start as int] == '\''),
            trim_quotes(s@) == trim_quotes(s@.subrange(start as int, end as int)),
        decreases end - start,
    {
        let ghost piece = s@.subrange(start as int, end as int);
        assert(piece[0] == s@[start as int]);
        assert(piece.drop_last() =~= s@.subrange(start as int, end - 1));
        end = end - 1;
    }
    proof {
        let piece = s@.subrange(start as int, end as int);
        if piece.len() > 0 {
            assert(piece[0] == s@[start as int]);
            assert(piece.last() == s@[end - 1]);
        }
    }
    crate::text::slice_chars(s, start, end)
}

/// Reads `name` from section `[section]` of a TOML manifest, scanning lines from
/// `i` on; `inside` says whether the current section is the wanted one.
pub open spec fn manifest_scan(ls: Seq<Seq<char>>, header: Seq<char>, i: int, inside: bool) -> Option<Seq<char>>
    decreases ls.len() - i,
{
    if i >= ls.len() || i < 0 {
        None
    } else {
        let line = trim(ls[i]);
        if line.len() > 0 && line[0] == '[' && line.last() == ']' {
            manifest_scan(ls, header, i + 1, line == header)
        } else {
            match crate::text::split_once(line, '=') {
                Some((key, value)) if inside && trim(key) == "name"@ => Some(trim_quotes(trim(value))),
                _ => manifest_scan(ls, header, i + 1, inside),
            }
        }
    }
}

/// The `name` of a TOML manifest section, the first `name = ...` line inside the
/// `[section]` header, with white space and quotes removed.
pub open spec fn manifest_name_of(contents: Seq<char>, section: Seq<char>) -> Option<Seq<char>> {
    manifest_scan(lines(contents), seq!['['] + section + seq![']'], 0, false)
}

/// Reads the package name from a `Cargo.toml` or `pyproject.toml` section.
pub fn manifest_name(contents: &str, section: &str) -> (r: Option<String>)
    ensures
        crate::outside::opt_view(r) == manifest_name_of(contents@, section@),
{
    let ls = text_lines(&chars_of(contents));
    let ghost lv = ls@.map_values(|l: Vec<char>| l@);
    let mut header: Vec<char> = Vec::new();
    header.push('[');
    crate::text::push_str(&mut header, section);
    header.push(']');
    assert(header@ =~= seq!['['] + section@ + seq![']']);
    let mut inside = false;
    let mut i: usize = 0;
    while i < ls.len()
        invariant
            i <= ls.len(),
            lv == ls@.map_values(|l: Vec<char>| l@),
            lv == lines(contents@),
            header@ == seq!['['] + section@ + seq![']'],
            manifest_scan(lv, header@, 0, false) == manifest_scan(lv, header@, i as int, inside),
        decreases ls.len() - i,
    {
        let line = trim_chars(&ls[i]);
        assert(lv[i as int] == ls@[i as int]@);
        if line.len() > 0 && line[0] == '[' && line[line.len() - 1] == ']' {
            inside = crate::text::chars_eq(&line, &header);
        } else if inside {
            match crate::text::split_at_char(&line, '=') {
                Some((key, value)) => {
                    let k = trim_chars(&key);
                    if crate::text::chars_eq(&k, &chars_of("name")) {
                        let v = trim_quote_chars(&trim_chars(&value));
                        proof {
                            assert(line@ == trim(lv[i as int]));
                            assert(manifest_scan(lv, header@, i as int, inside) == Some(v@));
                        }
                        return Some(string_of(&v));
                    }
                },
                None => {},
            }
        }
        i = i + 1;
    }
    None
}

/// The first line whose trimmed text starts with `# `, without that prefix.
pub open spec fn heading_scan(ls: Seq<Seq<char>>, i: int) -> Option<Seq<char>>
    decreases ls.len() - i,
{
    if i >= ls.len() || i < 0 {
        None
    } else if crate::text::starts_with(trim(ls[i]), "# "@) {
        Some(trim(ls[i]).skip(2))
    } else {
        heading_scan(ls, i + 1)
    }
}

/// The first Markdown heading of a README.
pub fn readme_heading(contents: &str) -> (r: Option<String>)
    ensures
        crate::outside::opt_view(r) == heading_scan(lines(contents@), 0),
{
    let ls = text_lines(&chars_of(contents));
    let ghost lv = ls@.map_values(|l: Vec<char>| l@);
    let prefix = chars_of("# ");
    proof {
        reveal_strlit("# ");
    }
    let mut i: usize = 0;
    while i < ls.len()
        invariant
            i <= ls.len(),
            lv == ls@.map_values(|l: Vec<char>| l@),
            lv == lines(contents@),
            prefix@ == "# "@,
            heading_scan(lv, 0) == heading_scan(lv, i as int),
        decreases ls.len() - i,
    {
        let line = trim_chars(&ls[i]);
        assert(lv[i as int] == ls@[i as int]@);
        if crate::text::has_prefix(&line, &prefix) {
            proof {
                reveal_strlit("# ");
            }
            let rest = crate::text::slice_chars(&line, prefix.len(), line.len());
            assert(rest@ =~= line@.skip(2));
            return Some(string_of(&rest));
        }
        i = i + 1;
    }
    None
}

/// The `name` string of a `package.json` or `composer.json` document.
pub fn json_manifest_name(document: &JsonValue) -> (r: Option<String>)
    ensures
        crate::outside::opt_view(r) == str_of(member(document.model(), "name"@)),
{
    match document.get("name") {
        Some(v) => match v.as_str() {
            Some(s) => Some(s.clone()),
            None => None,
        },
        None => None,
    }
}

/// What a repository says about its project name: the directory names and
/// the files that may name it.
pub struct ProjectEvidence {
    /// The file name of the repository root (of the directory outside a repository).
    pub root_name: Option<String>,
    /// The file name of the working directory, when it is not the root.
    pub cwd_name: Option<String>,
    /// The contents of the first README found (`README.md`, `README.MD`,
    /// `readme.md`, `README`).
    pub readme: Option<String>,
    pub cargo_toml: Option<String>,
    pub pyproject_toml: Option<String>,
    pub package_json: Option<String>,
    pub composer_json: Option<String>,
}

pub open spec fn opt_seq(o: Option<Seq<char>>) -> Seq<Seq<char>> {
    match o {
        Some(x) => seq![x],
        None => Seq::empty(),
    }
}

/// The `name` of a JSON manifest's text, when it parses and has one.
pub open spec fn json_manifest_name_of(text: Seq<char>) -> Option<Seq<char>> {
    match crate::outside::json_parse_model(text) {
        Ok(v) => str_of(member(v, "name"@)),
        Err(_) => None,
    }
}

/// The names the evidence offers, in order: root, working directory, README
/// heading, Cargo and Python package names, npm and Composer names.
pub open spec fn evidence_names(
    root_name: Option<Seq<char>>,
    cwd_name: Option<Seq<char>>,
    readme: Option<Seq<char>>,
    cargo_toml: Option<Seq<char>>,
    pyproject_toml: Option<Seq<char>>,
    package_json: Option<Seq<char>>,
    composer_json: Option<Seq<char>>,
) -> Seq<Seq<char>> {
    opt_seq(root_name) + opt_seq(cwd_name) + opt_seq(
        match readme {
            Some(r) => heading_scan(lines(r), 0),
            None => None,
        },
    ) + opt_seq(
        match cargo_toml {
            Some(c) => manifest_name_of(c, "package"@),
            None => None,
        },
    ) + opt_seq(
        match pyproject_toml {
            Some(c) => manifest_name_of(c, "project"@),
            None => None,
        },
    ) + opt_seq(
        match package_json {
            Some(c) => json_manifest_name_of(c),
            None => None,
        },
    ) + opt_seq(
        match composer_json {
            Some(c) => json_manifest_name_of(c),
            None => None,
        },
    )
}

/// The candidates after offering each name in turn to `add_project_candidate`.
pub open spec fn candidates_from(cs: Seq<Seq<char>>, names: Seq<Seq<char>>) -> Seq<Seq<char>>
    decreases names.len(),
{
    if names.len() == 0 {
        cs
    } else {
        let prev = candidates_from(cs, names.drop_last());
        if candidate_added(prev, names.last()) {
            prev.push(trim(names.last()))
        } else {
            prev
        }
    }
}

fn offer(names: &mut Vec<String>, o: Option<String>)
    ensures
        string_views(final(names)@) == string_views(old(names)@) + opt_seq(crate::outside::opt_view(o)),
{
    let ghost before = string_views(names@);
    match o {
        Some(x) => {
            names.push(x);
            assert(string_views(names@) =~= before + seq![x@]);
        },
        None => {
            assert(string_views(names@) =~= before + Seq::<Seq<char>>::empty());
        },
    }
}

fn json_name(text: &Option<String>) -> (r: Option<String>)
    ensures
        crate::outside::opt_view(r) == match crate::outside::opt_view(*text) {
            Some(c) => json_manifest_name_of(c),
            None => None,
        },
{
    match text {
        Some(t) => match crate::outside::parse_json(t.as_str()) {
            Ok(v) => json_manifest_name(&v),
            Err(_) => None,
        },
        None => None,
    }
}

/// The project names the repository suggests, each once by normalized form.
pub fn project_candidates(e: &ProjectEvidence) -> (r: Vec<String>)
    ensures
        string_views(r@) == candidates_from(
            Seq::empty(),
            evidence_names(
                crate::outside::opt_view(e.root_name),
                crate::outside::opt_view(e.cwd_name),
                crate::outside::opt_view(e.readme),
                crate::outside::opt_view(e.cargo_toml),
                crate::outside::opt_view(e.pyproject_toml),
                crate::outside::opt_view(e.package_json),
                crate::outside::opt_view(e.composer_json),
            ),
        ),
        distinct_normalized(string_views(r@)),
{
    let mut names: Vec<String> = Vec::new();
    assert(string_views(names@) =~= Seq::<Seq<char>>::empty());
    offer(&mut names, e.root_name.clone());
    offer(&mut names, e.cwd_name.clone());
    let heading = match &e.readme {
        Some(r) => readme_heading(r.as_str()),
        None => None,
    };
    offer(&mut names, heading);
    let cargo = match &e.cargo_toml {
        Some(c) => manifest_name(c.as_str(), "package"),
        None => None,
    };
    offer(&mut names, cargo);
    let py = match &e.pyproject_toml {
        Some(c) => manifest_name(c.as_str(), "project"),
        None => None,
    };
    offer(&mut names, py);
    offer(&mut names, json_name(&e.package_json));
    offer(&mut names, json_name(&e.composer_json));
    let ghost all = string_views(names@);
    assert(all =~= evidence_names(
        crate::outside::opt_view(e.root_name),
        crate::outside::opt_view(e.cwd_name),
        crate::outside::opt_view(e.readme),
        crate::outside::opt_view(e.cargo_toml),
        crate::outside::opt_view(e.pyproject_toml),
        crate::outside::opt_view(e.package_json),
        crate::outside::opt_view(e.composer_json),
    ));
    let mut out: Vec<String> = Vec::new();
    assert(string_views(out@) =~= Seq::<Seq<char>>::empty());
    let mut i: usize = 0;
    assert(all.take(0) =~= Seq::<Seq<char>>::empty());
    while i < names.len()
        invariant
            i <= names.len(),
            all == string_views(names@),
            string_views(out@) == candidates_from(Seq::empty(), all.take(i as int)),
            distinct_normalized(string_views(out@)),
        decreases names.len() - i,
    {
        assert(all.take(i + 1).drop_last() =~= all.take(i as int));
        assert(all.take(i + 1).last() == names@[i as int]@);
        add_project_candidate(&mut out, names[i].as_str());
        i = i + 1;
    }
    assert(all.take(names.len() as int) =~= all);
    out
}

/// A project's `id`.
pub fn id(value: &JsonValue) -> (r: Result<u64, CliError>)
    ensures
        outcome(r, |n: u64| n) == match u64_of(member(value.model(), "id"@)) {
            Some(n) => Ok(n),
            None => Err((ErrorKind::MissingId, Seq::<Seq<char>>::empty())),
        },
{
    match value.get("id") {
        Some(v) => match v.as_u64() {
            Some(n) => Ok(n),
            None => Err(CliError::new(ErrorKind::MissingId)),
        },
        None => Err(CliError::new(ErrorKind::MissingId)),
    }
}


/// Words too generic to relate two project names.
pub open spec fn ignored_word(t: Seq<char>) -> bool {
    t == "app"@ || t == "api"@ || t == "backend"@ || t == "cli"@ || t == "client"@ || t == "core"@
        || t == "frontend"@ || t == "service"@ || t == "web"@
}

/// A word long enough and specific enough to relate two names.
pub open spec fn meaningful(t: Seq<char>) -> bool {
    t.len() >= 3 && !ignored_word(t)
}

/// The sequence without repeated elements, keeping first occurrences.
pub open spec fn dedup(s: Seq<Seq<char>>) -> Seq<Seq<char>>
    decreases s.len(),
{
    if s.len() == 0 {
        s
    } else {
        let d = dedup(s.drop_last());
        if d.contains(s.last()) {
            d
        } else {
            d.push(s.last())
        }
    }
}

/// The distinct meaningful words of a name.
pub open spec fn meaningful_tokens(s: Seq<char>) -> Seq<Seq<char>> {
    dedup(words(s).filter(|t: Seq<char>| meaningful(t)))
}

/// How many elements of `a` occur in `b`.
pub open spec fn shared_count(a: Seq<Seq<char>>, b: Seq<Seq<char>>) -> nat {
    a.filter(|t: Seq<char>| b.contains(t)).len()
}

pub open spec fn min_nat(a: nat, b: nat) -> nat {
    if a <= b {
        a
    } else {
        b
    }
}

/// How strongly a local name suggests a project name that it does not equal:
/// containment of one normalized name in the other (both at least four long)
/// scores 200 plus the shorter length; otherwise two shared meaningful words, or
/// one when one side has only that one and both names are at least four long,
/// score 100 plus ten per shared word.
pub open spec fn relevance_of(candidate: Seq<char>, project: Seq<char>) -> Option<nat> {
    let c = normalized(candidate);
    let p = normalized(project);
    if c.len() == 0 || p.len() == 0 || c == p {
        None
    } else {
        let shortest = min_nat(c.len(), p.len());
        if shortest >= 4 && (crate::text::contains_seq(c, p) || crate::text::contains_seq(p, c)) {
            Some(200 + shortest)
        } else {
            let ct = meaningful_tokens(candidate);
            let pt = meaningful_tokens(project);
            let shared = shared_count(ct, pt);
            if shared >= 2 || (shared == 1 && min_nat(ct.len(), pt.len()) == 1 && shortest >= 4) {
                Some(100 + shared * 10)
            } else {
                None
            }
        }
    }
}

proof fn lemma_dedup_no_duplicates(s: Seq<Seq<char>>)
    ensures
        dedup(s).no_duplicates(),
    decreases s.len(),
{
    if s.len() > 0 {
        lemma_dedup_no_duplicates(s.drop_last());
        let d = dedup(s.drop_last());
        if !d.contains(s.last()) {
            let e = d.push(s.last());
            assert forall|i: int, j: int| 0 <= i < e.len() && 0 <= j < e.len() && i != j implies e[i] != e[j] by {
                if i == d.len() {
                    assert(e[j] == d[j]);
                } else if j == d.len() {
                    assert(e[i] == d[i]);
                }
            }
        }
    }
}

proof fn lemma_filter_no_duplicates(a: Seq<Seq<char>>, p: spec_fn(Seq<char>) -> bool)
    requires
        a.no_duplicates(),
    ensures
        a.filter(p).no_duplicates(),
    decreases a.len(),
{
    if a.len() > 0 {
        let d = a.drop_last();
        let x = a.last();
        assert(d.no_duplicates());
        lemma_filter_no_duplicates(d, p);
        assert(d.push(x) =~= a);
        d.lemma_filter_push(x, p);
        if p(x) {
            let f = d.filter(p);
            if f.contains(x) {
                d.lemma_filter_contains_rev(p, x);
                let k = choose|k: int| 0 <= k < d.len() && d[k] == x;
                assert(a[k] == a[a.len() - 1]);
            }
            let e = f.push(x);
            assert forall|i: int, j: int| 0 <= i < e.len() && 0 <= j < e.len() && i != j implies e[i] != e[j] by {
                if i == f.len() {
                    assert(e[j] == f[j]);
                    assert(f.contains(f[j]));
                } else if j == f.len() {
                    assert(e[i] == f[i]);
                    assert(f.contains(f[i]));
                }
            }
        }
    }
}

/// For a sequence without repetitions, the shared count is the size of the
/// intersection of the two sides' sets.
proof fn lemma_shared_count_set(a: Seq<Seq<char>>, b: Seq<Seq<char>>)
    requires
        a.no_duplicates(),
    ensures
        shared_count(a, b) == a.to_set().intersect(b.to_set()).len(),
{
    broadcast use vstd::seq_lib::group_filter_ensures;
    let pred = |t: Seq<char>| b.contains(t);
    let f = a.filter(pred);
    lemma_filter_no_duplicates(a, pred);
    f.unique_seq_to_set();
    assert forall|x: Seq<char>| f.to_set().contains(x) <==> a.to_set().intersect(b.to_set()).contains(x) by {
        if f.contains(x) {
            a.lemma_filter_contains_rev(pred, x);
            let k = choose|k: int| 0 <= k < f.len() && f[k] == x;
            assert(pred(f[k]));
        }
        if a.contains(x) && b.contains(x) {
            let k = choose|k: int| 0 <= k < a.len() && a[k] == x;
            a.lemma_filter_contains(pred, k);
        }
    }
    assert(f.to_set() =~= a.to_set().intersect(b.to_set()));
}

/// Relevance does not depend on which name is the local one: a local name
/// suggests a project exactly as strongly as the project's name would suggest
/// the local one.
pub proof fn law_relevance_is_symmetric(a: Seq<char>, b: Seq<char>)
    ensures
        relevance_of(a, b) == relevance_of(b, a),
{
    let ta = meaningful_tokens(a);
    let tb = meaningful_tokens(b);
    lemma_dedup_no_duplicates(words(a).filter(|t: Seq<char>| meaningful(t)));
    lemma_dedup_no_duplicates(words(b).filter(|t: Seq<char>| meaningful(t)));
    lemma_shared_count_set(ta, tb);
    lemma_shared_count_set(tb, ta);
    assert(ta.to_set().intersect(tb.to_set()) =~= tb.to_set().intersect(ta.to_set()));
}

/// Equal or empty normalized names are never suggested, and a suggestion
/// scores at least 110.
pub proof fn law_relevance_bounds(a: Seq<char>, b: Seq<char>)
    ensures
        normalized(a) == normalized(b) || normalized(a).len() == 0 || normalized(b).len() == 0
            ==> relevance_of(a, b) is None,
        relevance_of(a, b) matches Some(n) ==> n >= 110,
{
}

pub proof fn lemma_words_len(s: Seq<char>)
    ensures
        words(s).len() <= s.len(),
        join_words(words(s)).len() <= s.len(),
        s.len() > 0 && !is_ascii_alnum(s.last()) ==> join_words(words(s)).len() < s.len(),
    decreases s.len(),
{
    if s.len() > 0 {
        lemma_words_len(s.drop_last());
        lemma_words_nonempty(s.drop_last());
        let w = words(s.drop_last());
        let c = s.last();
        if is_ascii_alnum(c) {
            if s.len() >= 2 && is_ascii_alnum(s[s.len() - 2]) {
                assert(s.drop_last().last() == s[s.len() - 2]);
                lemma_join_extend_last(w, lower(c));
            } else {
                lemma_join_push(w, seq![lower(c)]);
                lemma_join_empty(w);
                if s.len() >= 2 {
                    assert(s.drop_last().last() == s[s.len() - 2]);
                }
            }
        }
    }
}

pub proof fn lemma_dedup(s: Seq<Seq<char>>)
    ensures
        dedup(s).len() <= s.len(),
        forall|t: Seq<char>| dedup(s).contains(t) <==> s.contains(t),
        dedup(s).no_duplicates(),
    decreases s.len(),
{
    if s.len() > 0 {
        lemma_dedup(s.drop_last());
        let d = dedup(s.drop_last());
        let x = s.last();
        let front = s.drop_last();
        assert forall|t: Seq<char>| dedup(s).contains(t) <==> s.contains(t) by {
            if s.contains(t) {
                let i = choose|i: int| 0 <= i < s.len() && s[i] == t;
                if i < s.len() - 1 {
                    assert(front[i] == t);
                    assert(front.contains(t));
                    let k = choose|k: int| 0 <= k < d.len() && d[k] == t;
                    if !d.contains(x) {
                        assert(d.push(x)[k] == t);
                    }
                } else {
                    assert(t == x);
                    if !d.contains(x) {
                        assert(d.push(x)[d.len() as int] == x);
                    }
                }
            }
            if dedup(s).contains(t) {
                let k = choose|k: int| 0 <= k < dedup(s).len() && dedup(s)[k] == t;
                if k < d.len() {
                    assert(d[k] == t);
                    assert(d.contains(t));
                    assert(front.contains(t));
                    let i = choose|i: int| 0 <= i < front.len() && front[i] == t;
                    assert(s[i] == t);
                } else {
                    assert(t == x);
                    assert(s[s.len() - 1] == t);
                }
            }
        }
        if !d.contains(x) {
            assert forall|i: int, j: int| 0 <= i < d.len() + 1 && 0 <= j < d.len() + 1 && i != j implies d.push(x)[i] != d.push(x)[j] by {
                if i == d.len() {
                    assert(d[j] != x);
                } else if j == d.len() {
                    assert(d[i] != x);
                }
            }
        }
    }
}

/// The words of a text, as `words` describes them.
pub fn word_list(s: &Vec<char>) -> (r: Vec<Vec<char>>)
    ensures
        r@.map_values(|w: Vec<char>| w@) == words(s@),
{
    let mut out: Vec<Vec<char>> = Vec::new();
    let mut i: usize = 0;
    assert(out@.map_values(|w: Vec<char>| w@) =~= words(s@.take(0)));
    while i < s.len()
        invariant
            i <= s.len(),
            out@.map_values(|w: Vec<char>| w@) == words(s@.take(i as int)),
        decreases s.len() - i,
    {
        let c = s[i];
        let ghost pre = s@.take(i as int);
        let ghost next = s@.take(i + 1);
        let ghost before = out@.map_values(|w: Vec<char>| w@);
        assert(next.drop_last() =~= pre);
        if char_is_alnum(c) {
            let lc = char_lower(c);
            if i > 0 && char_is_alnum(s[i - 1]) {
                proof {
                    assert(next[next.len() - 2] == s@[i - 1]);
                    assert(pre.last() == s@[i - 1]);
                    lemma_words_nonempty(pre);
                }
                let last = out.len() - 1;
                let mut w = crate::text::slice_chars(&out[last], 0, out[last].len());
                assert(w@ =~= before[last as int]);
                w.push(lc);
                out.set(last, w);
                assert(out@.map_values(|w: Vec<char>| w@) =~= before.update(last as int, before[last as int].push(lc)));
            } else {
                proof {
                    if i > 0 {
                        assert(next[next.len() - 2] == s@[i - 1]);
                    }
                }
                let mut w: Vec<char> = Vec::new();
                w.push(lc);
                out.push(w);
                assert(out@.map_values(|w: Vec<char>| w@) =~= before.push(seq![lc]));
            }
        }
        i = i + 1;
    }
    assert(s@.take(s.len() as int) =~= s@);
    out
}

pub fn word_is_ignored(t: &Vec<char>) -> (r: bool)
    ensures
        r == ignored_word(t@),
{
    let s = string_of(t);
    crate::text::str_eq(s.as_str(), "app") || crate::text::str_eq(s.as_str(), "api")
        || crate::text::str_eq(s.as_str(), "backend") || crate::text::str_eq(s.as_str(), "cli")
        || crate::text::str_eq(s.as_str(), "client") || crate::text::str_eq(s.as_str(), "core")
        || crate::text::str_eq(s.as_str(), "frontend") || crate::text::str_eq(s.as_str(), "service")
        || crate::text::str_eq(s.as_str(), "web")
}

pub open spec fn seq_views(v: Seq<Vec<char>>) -> Seq<Seq<char>> {
    v.map_values(|w: Vec<char>| w@)
}

/// Whether a list of character sequences holds `t`.
pub fn holds(v: &Vec<Vec<char>>, t: &Vec<char>) -> (r: bool)
    ensures
        r == seq_views(v@).contains(t@),
{
    let mut i: usize = 0;
    while i < v.len()
        invariant
            i <= v.len(),
            forall|k: int| 0 <= k < i ==> seq_views(v@)[k] != t@,
        decreases v.len() - i,
    {
        if crate::text::chars_eq(&v[i], t) {
            assert(seq_views(v@)[i as int] == t@);
            return true;
        }
        i = i + 1;
    }
    false
}

/// The distinct meaningful words of a name.
pub fn token_list(s: &Vec<char>) -> (r: Vec<Vec<char>>)
    ensures
        seq_views(r@) == meaningful_tokens(s@),
{
    let ws = word_list(s);
    let ghost all = seq_views(ws@);
    let mut out: Vec<Vec<char>> = Vec::new();
    let mut i: usize = 0;
    assert(all.take(0).filter(|t: Seq<char>| meaningful(t)) =~= Seq::<Seq<char>>::empty());
    assert(seq_views(out@) =~= dedup(Seq::<Seq<char>>::empty()));
    while i < ws.len()
        invariant
            i <= ws.len(),
            all == seq_views(ws@),
            all == words(s@),
            seq_views(out@) == dedup(all.take(i as int).filter(|t: Seq<char>| meaningful(t))),
        decreases ws.len() - i,
    {
        let w = &ws[i];
        let ghost f0 = all.take(i as int).filter(|t: Seq<char>| meaningful(t));
        let ghost f1 = all.take(i + 1).filter(|t: Seq<char>| meaningful(t));
        assert(all.take(i + 1).drop_last() =~= all.take(i as int));
        assert(all[i as int] == w@);
        proof {
            reveal_with_fuel(Seq::filter, 1);
        }
        if w.len() >= 3 && !word_is_ignored(w) {
            assert(f1 == f0.push(w@));
            assert(f1.drop_last() =~= f0);
            if !holds(&out, w) {
                let ghost before = seq_views(out@);
                let copy = crate::text::slice_chars(w, 0, w.len());
                assert(copy@ =~= w@);
                out.push(copy);
                assert(seq_views(out@) =~= before.push(w@));
            }
        } else {
            assert(f1 == f0);
        }
        i = i + 1;
    }
    assert(all.take(ws.len() as int) =~= all);
    out
}

/// How many of `a` occur in `b`.
pub fn count_shared(a: &Vec<Vec<char>>, b: &Vec<Vec<char>>) -> (r: usize)
    ensures
        r == shared_count(seq_views(a@), seq_views(b@)),
{
    let ghost av = seq_views(a@);
    let ghost bv = seq_views(b@);
    let mut n: usize = 0;
    let mut i: usize = 0;
    assert(av.take(0).filter(|t: Seq<char>| bv.contains(t)) =~= Seq::<Seq<char>>::empty());
    while i < a.len()
        invariant
            i <= a.len(),
            av == seq_views(a@),
            bv == seq_views(b@),
            n == av.take(i as int).filter(|t: Seq<char>| bv.contains(t)).len(),
            n <= i,
        decreases a.len() - i,
    {
        assert(av.take(i + 1).drop_last() =~= av.take(i as int));
        assert(av[i as int] == a@[i as int]@);
        proof {
            reveal_with_fuel(Seq::filter, 1);
        }
        if holds(b, &a[i]) {
            n = n + 1;
        }
        i = i + 1;
    }
    assert(av.take(a.len() as int) =~= av);
    n
}

/// How strongly a local name suggests a project name (see `relevance_of`),
/// in a width that holds every score.
pub fn relevance_score(candidate: &str, project: &str) -> (r: Option<u128>)
    ensures
        match r {
            Some(n) => relevance_of(candidate@, project@) == Some(n as nat),
            None => relevance_of(candidate@, project@) is None,
        },
{
    let cc = chars_of(candidate);
    let pc = chars_of(project);
    let c = normalize_chars(&cc);
    let p = normalize_chars(&pc);
    if c.len() == 0 || p.len() == 0 || crate::text::chars_eq(&c, &p) {
        return None;
    }
    proof {
        lemma_words_len(candidate@);
        lemma_words_len(project@);
    }
    let shortest = if c.len() <= p.len() {
        c.len()
    } else {
        p.len()
    };
    if shortest >= 4 && (crate::text::has_piece(&c, &p) || crate::text::has_piece(&p, &c)) {
        return Some(200 + shortest as u128);
    }
    let ct = token_list(&cc);
    let pt = token_list(&pc);
    let shared = count_shared(&ct, &pt);
    proof {
        lemma_dedup(words(candidate@).filter(|t: Seq<char>| meaningful(t)));
        lemma_words_len(candidate@);
        assert(ct@.len() == seq_views(ct@).len());
        seq_views(ct@).lemma_filter_len(|t: Seq<char>| seq_views(pt@).contains(t));
        words(candidate@).lemma_filter_len(|t: Seq<char>| meaningful(t));
        assert(shared <= candidate@.len());
    }
    let fewest = if ct.len() <= pt.len() {
        ct.len()
    } else {
        pt.len()
    };
    if shared >= 2 || (shared == 1 && fewest == 1 && shortest >= 4) {
        Some(100 + (shared as u128) * 10)
    } else {
        None
    }
}

/// How strongly a local name suggests a project name (see `relevance_of`). The
/// score must fit in a `usize`.
pub fn project_relevance(candidate: &str, project: &str) -> (r: Option<usize>)
    requires
        relevance_of(candidate@, project@) matches Some(n) ==> n <= usize::MAX,
    ensures
        match r {
            Some(n) => relevance_of(candidate@, project@) == Some(n as nat),
            None => relevance_of(candidate@, project@) is None,
        },
{
    match relevance_score(candidate, project) {
        Some(n) => Some(n as usize),
        None => None,
    }
}


/// Lexicographic order of texts by character (the order of `String`).
pub open spec fn lex_le(a: Seq<char>, b: Seq<char>) -> bool
    decreases a.len(),
{
    if a.len() == 0 {
        true
    } else if b.len() == 0 {
        false
    } else if a[0] != b[0] {
        a[0] < b[0]
    } else {
        lex_le(a.drop_first(), b.drop_first())
    }
}

pub proof fn lemma_lex_total(a: Seq<char>, b: Seq<char>)
    ensures
        lex_le(a, b) || lex_le(b, a),
        lex_le(a, b) && lex_le(b, a) ==> a == b,
    decreases a.len(),
{
    if a.len() > 0 && b.len() > 0 && a[0] == b[0] {
        lemma_lex_total(a.drop_first(), b.drop_first());
        if lex_le(a, b) && lex_le(b, a) {
            assert(a =~= seq![a[0]] + a.drop_first());
            assert(b =~= seq![b[0]] + b.drop_first());
        }
    }
    if a.len() == 0 && b.len() == 0 {
        assert(a =~= b);
    }
}

pub proof fn lemma_lex_trans(a: Seq<char>, b: Seq<char>, c: Seq<char>)
    requires
        lex_le(a, b),
        lex_le(b, c),
    ensures
        lex_le(a, c),
    decreases a.len(),
{
    if a.len() > 0 && b.len() > 0 && c.len() > 0 && a[0] == b[0] && b[0] == c[0] {
        lemma_lex_trans(a.drop_first(), b.drop_first(), c.drop_first());
    }
}

/// `x` may come before `y` in a ranking: a higher score, or an equal score and
/// a label that is not greater.
pub open spec fn ranks_before(x: (nat, Seq<char>), y: (nat, Seq<char>)) -> bool {
    x.0 > y.0 || (x.0 == y.0 && lex_le(x.1, y.1))
}

/// Ordered by descending score, then by ascending label.
pub open spec fn ranked(s: Seq<(nat, Seq<char>)>) -> bool {
    forall|i: int, j: int| 0 <= i < j < s.len() ==> ranks_before(s[i], s[j])
}

pub fn lex_le_chars(a: &Vec<char>, b: &Vec<char>) -> (r: bool)
    ensures
        r == lex_le(a@, b@),
{
    let mut i: usize = 0;
    assert(a@.skip(0) =~= a@);
    assert(b@.skip(0) =~= b@);
    while i < a.len() && i < b.len() && a[i] == b[i]
        invariant
            i <= a.len(),
            i <= b.len(),
            lex_le(a@, b@) == lex_le(a@.skip(i as int), b@.skip(i as int)),
        decreases a.len() - i,
    {
        assert(a@.skip(i as int).drop_first() =~= a@.skip(i + 1));
        assert(b@.skip(i as int).drop_first() =~= b@.skip(i + 1));
        i = i + 1;
    }
    if i == a.len() {
        true
    } else if i == b.len() {
        false
    } else {
        assert(a@.skip(i as int)[0] == a@[i as int]);
        assert(b@.skip(i as int)[0] == b@[i as int]);
        a[i] < b[i]
    }
}

pub open spec fn opt_max(a: Option<nat>, b: Option<nat>) -> Option<nat> {
    match (a, b) {
        (Some(x), Some(y)) => Some(if x >= y { x } else { y }),
        (Some(x), None) => Some(x),
        (None, y) => y,
    }
}

/// The relevance of one candidate to a project's name or identifier, whichever is higher.
pub open spec fn candidate_score(c: Seq<char>, name: Seq<char>, identifier: Option<Seq<char>>) -> Option<nat> {
    opt_max(
        relevance_of(c, name),
        match identifier {
            Some(i) => relevance_of(c, i),
            None => None,
        },
    )
}

/// The best relevance of any candidate to a project.
pub open spec fn project_score(cs: Seq<Seq<char>>, name: Seq<char>, identifier: Option<Seq<char>>) -> Option<nat>
    decreases cs.len(),
{
    if cs.len() == 0 {
        None
    } else {
        opt_max(project_score(cs.drop_last(), name, identifier), candidate_score(cs.last(), name, identifier))
    }
}

/// How a related project is shown: `name (identifier, ID n)`, leaving out what it lacks.
pub open spec fn project_label(name: Seq<char>, identifier: Option<Seq<char>>, id: Option<u64>) -> Seq<char> {
    match (id, identifier) {
        (Some(n), Some(i)) => name + " ("@ + i + ", ID "@ + crate::text::decimal(n as nat) + ")"@,
        (Some(n), None) => name + " (ID "@ + crate::text::decimal(n as nat) + ")"@,
        (None, Some(i)) => name + " ("@ + i + ")"@,
        (None, None) => name,
    }
}

/// The projects that some candidate suggests, in project order, with score and label.
pub open spec fn scored_projects(ps: Seq<Json>, cs: Seq<Seq<char>>) -> Seq<(nat, Seq<char>)>
    decreases ps.len(),
{
    if ps.len() == 0 {
        Seq::empty()
    } else {
        let front = scored_projects(ps.drop_last(), cs);
        let p = ps.last();
        match str_of(member(p, "name"@)) {
            None => front,
            Some(name) => {
                let identifier = str_of(member(p, "identifier"@));
                match project_score(cs, name, identifier) {
                    None => front,
                    Some(score) => front.push((score, project_label(name, identifier, u64_of(member(p, "id"@))))),
                }
            },
        }
    }
}

pub open spec fn opt_ref_view(o: Option<&String>) -> Option<Seq<char>> {
    match o {
        Some(s) => Some(s@),
        None => None,
    }
}

/// The texts of a candidate list.
pub open spec fn candidate_views(cs: Seq<String>) -> Seq<Seq<char>> {
    cs.map_values(|s: String| s@)
}

fn best_score(candidates: &Vec<String>, name: &str, identifier: Option<&String>) -> (r: Option<u128>)
    ensures
        match r {
            Some(n) => project_score(candidate_views(candidates@), name@, opt_ref_view(identifier)) == Some(n as nat),
            None => project_score(candidate_views(candidates@), name@, opt_ref_view(identifier)) is None,
        },
{
    let ghost cs = candidate_views(candidates@);
    let ghost iv = opt_ref_view(identifier);
    let mut best: Option<u128> = None;
    let mut i: usize = 0;
    while i < candidates.len()
        invariant
            i <= candidates.len(),
            cs == candidate_views(candidates@),
            iv == opt_ref_view(identifier),
            match best {
                Some(n) => project_score(cs.take(i as int), name@, iv) == Some(n as nat),
                None => project_score(cs.take(i as int), name@, iv) is None,
            },
        decreases candidates.len() - i,
    {
        assert(cs.take(i + 1).drop_last() =~= cs.take(i as int));
        assert(cs.take(i + 1).last() == candidates@[i as int]@);
        let c = candidates[i].as_str();
        let by_name = relevance_score(c, name);
        let by_identifier = match identifier {
            Some(idf) => relevance_score(c, idf.as_str()),
            None => None,
        };
        let here = match (by_name, by_identifier) {
            (Some(x), Some(y)) => Some(if x >= y { x } else { y }),
            (Some(x), None) => Some(x),
            (None, y) => y,
        };
        proof {
            let cand = candidates@[i as int]@;
            match here {
                Some(n) => assert(candidate_score(cand, name@, iv) == Some(n as nat)),
                None => assert(candidate_score(cand, name@, iv) is None),
            }
        }
        best = match (best, here) {
            (Some(x), Some(y)) => Some(if x >= y { x } else { y }),
            (Some(x), None) => Some(x),
            (None, y) => y,
        };
        i = i + 1;
    }
    assert(cs.take(candidates.len() as int) =~= cs);
    best
}

fn label_for(name: &str, identifier: Option<&String>, id: Option<u64>) -> (r: Vec<char>)
    ensures
        r@ == project_label(name@, opt_ref_view(identifier), id),
{
    let mut v = chars_of(name);
    match (id, identifier) {
        (Some(n), Some(i)) => {
            crate::text::push_str(&mut v, " (");
            crate::text::push_str(&mut v, i.as_str());
            crate::text::push_str(&mut v, ", ID ");
            crate::text::push_chars(&mut v, &crate::text::decimal_chars(n));
            crate::text::push_str(&mut v, ")");
        },
        (Some(n), None) => {
            crate::text::push_str(&mut v, " (ID ");
            crate::text::push_chars(&mut v, &crate::text::decimal_chars(n));
            crate::text::push_str(&mut v, ")");
        },
        (None, Some(i)) => {
            crate::text::push_str(&mut v, " (");
            crate::text::push_str(&mut v, i.as_str());
            crate::text::push_str(&mut v, ")");
        },
        (None, None) => {},
    }
    v
}

pub open spec fn entry_views(v: Seq<(u128, Vec<char>)>) -> Seq<(nat, Seq<char>)> {
    v.map_values(|e: (u128, Vec<char>)| (e.0 as nat, e.1@))
}

/// Inserts `x` into a ranked list after every entry that may precede it.
fn insert_ranked(list: &mut Vec<(u128, Vec<char>)>, x: (u128, Vec<char>))
    requires
        ranked(entry_views(old(list)@)),
    ensures
        ranked(entry_views(final(list)@)),
        entry_views(final(list)@).to_multiset() == entry_views(old(list)@).to_multiset().insert((x.0 as nat, x.1@)),
{
    let ghost xv = (x.0 as nat, x.1@);
    let ghost before = entry_views(list@);
    let mut k: usize = 0;
    while k < list.len() && (list[k].0 > x.0 || (list[k].0 == x.0 && lex_le_chars(&list[k].1, &x.1)))
        invariant
            k <= list.len(),
            before == entry_views(list@),
            xv == (x.0 as nat, x.1@),
            forall|i: int| 0 <= i < k ==> ranks_before(#[trigger] before[i], xv),
        decreases list.len() - k,
    {
        assert(before[k as int] == (list@[k as int].0 as nat, list@[k as int].1@));
        k = k + 1;
    }
    proof {
        if k < list.len() {
            assert(before[k as int] == (list@[k as int].0 as nat, list@[k as int].1@));
            assert(!ranks_before(before[k as int], xv));
            lemma_lex_total(before[k as int].1, xv.1);
            assert(ranks_before(xv, before[k as int]));
            assert forall|j: int| k <= j < before.len() implies ranks_before(xv, #[trigger] before[j]) by {
                if j > k {
                    assert(ranks_before(before[k as int], before[j]));
                    if xv.0 == before[k as int].0 && before[k as int].0 == before[j].0 {
                        lemma_lex_trans(xv.1, before[k as int].1, before[j].1);
                    }
                }
            }
        }
    }
    list.insert(k, x);
    proof {
        let after = entry_views(list@);
        assert(after =~= before.insert(k as int, xv));
        vstd::seq_lib::to_multiset_insert(before, k as int, xv);
        assert forall|i: int, j: int| 0 <= i < j < after.len() implies ranks_before(after[i], after[j]) by {
            if i < k && j < k {
            } else if i < k && j == k {
            } else if i < k && j > k {
                assert(after[j] == before[j - 1]);
                assert(ranks_before(before[i], before[j - 1]));
            } else if i == k {
                assert(after[j] == before[j - 1]);
            } else {
                assert(after[i] == before[i - 1]);
                assert(after[j] == before[j - 1]);
            }
        }
    }
}

/// Up to five projects related to the local evidence, best first (score
/// descending, then label ascending), as labels.
pub fn related_projects(projects: &Vec<JsonValue>, candidates: &Vec<String>) -> (r: Vec<String>)
    ensures
        exists|ranking: Seq<(nat, Seq<char>)>|
            ranked(ranking) && ranking.to_multiset() == scored_projects(model_items(projects@), candidate_views(candidates@)).to_multiset()
                && string_views(r@) == ranking.take(if ranking.len() < 5 {
                    ranking.len() as int
                } else {
                    5
                }).map_values(|e: (nat, Seq<char>)| e.1),
{
    let ghost ps = model_items(projects@);
    let ghost cs = candidate_views(candidates@);
    proof {
        crate::json::lemma_model_items(projects@);
    }
    let mut list: Vec<(u128, Vec<char>)> = Vec::new();
    let mut i: usize = 0;
    assert(entry_views(list@).to_multiset() =~= scored_projects(ps.take(0), cs).to_multiset()) by {
        assert(entry_views(list@) =~= Seq::<(nat, Seq<char>)>::empty());
        assert(ps.take(0) =~= Seq::<Json>::empty());
    }
    while i < projects.len()
        invariant
            i <= projects.len(),
            ps == model_items(projects@),
            ps.len() == projects.len(),
            forall|k: int| 0 <= k < projects.len() ==> #[trigger] ps[k] == projects@[k].model(),
            cs == candidate_views(candidates@),
            ranked(entry_views(list@)),
            entry_views(list@).to_multiset() == scored_projects(ps.take(i as int), cs).to_multiset(),
        decreases projects.len() - i,
    {
        let p = &projects[i];
        assert(ps.take(i + 1).drop_last() =~= ps.take(i as int));
        assert(ps.take(i + 1).last() == p.model());
        let name = match p.get("name") {
            Some(v) => v.as_str(),
            None => None,
        };
        if let Some(name) = name {
            let identifier = match p.get("identifier") {
                Some(v) => v.as_str(),
                None => None,
            };
            let ghost iv = opt_ref_view(identifier);
            assert(iv == str_of(member(p.model(), "identifier"@)));
            match best_score(candidates, name.as_str(), identifier) {
                Some(score) => {
                    let num = match p.get("id") {
                        Some(v) => v.as_u64(),
                        None => None,
                    };
                    let label = label_for(name.as_str(), identifier, num);
                    let ghost before = entry_views(list@);
                    insert_ranked(&mut list, (score, label));
                    proof {
                        let sp = scored_projects(ps.take(i + 1), cs);
                        assert(sp == scored_projects(ps.take(i as int), cs).push((score as nat, label@)));
                        vstd::seq_lib::to_multiset_build(scored_projects(ps.take(i as int), cs), (score as nat, label@));
                    }
                },
                None => {},
            }
        }
        i = i + 1;
    }
    assert(ps.take(projects.len() as int) =~= ps);
    let mut out: Vec<String> = Vec::new();
    let mut k: usize = 0;
    let n = if list.len() < 5 {
        list.len()
    } else {
        5
    };
    while k < n
        invariant
            k <= n <= list.len(),
            n == if list.len() < 5 { list.len() } else { 5 },
            string_views(out@) == entry_views(list@).take(k as int).map_values(|e: (nat, Seq<char>)| e.1),
        decreases n - k,
    {
        let ghost before = string_views(out@);
        assert(entry_views(list@)[k as int].1 == list@[k as int].1@);
        let text = string_of(&list[k].1);
        out.push(text);
        assert(string_views(out@) =~= before.push(list@[k as int].1@));
        assert(entry_views(list@).take(k + 1).map_values(|e: (nat, Seq<char>)| e.1) =~= entry_views(list@).take(k as int).map_values(|e: (nat, Seq<char>)| e.1).push(entry_views(list@)[k as int].1));
        k = k + 1;
    }
    out
}


/// Where a project comes from: a numeric ID, a name to look up, or the directory.
#[derive(Debug)]
pub enum ProjectLookup {
    ById(u64),
    ByName(String),
    ByDirectory,
}

/// The project reference to resolve: `--project`, else the configured one; a
/// reference that parses as a `u64` is an ID.
pub fn project_lookup(explicit: Option<&str>, configured: Option<&String>) -> (r: ProjectLookup)
    ensures
        match (match explicit {
            Some(e) => Some(e@),
            None => opt_ref_view(configured),
        }) {
            None => r is ByDirectory,
            Some(v) => match crate::text::parse_unsigned(v, u64::MAX as nat) {
                Some(n) => r == ProjectLookup::ById(n as u64),
                None => r matches ProjectLookup::ByName(name) && name@ == v,
            },
        },
{
    let value: Option<String> = match explicit {
        Some(e) => Some(e.to_owned()),
        None => match configured {
            Some(c) => Some(c.clone()),
            None => None,
        },
    };
    match value {
        None => ProjectLookup::ByDirectory,
        Some(v) => match crate::text::parse_unsigned_chars(&chars_of(v.as_str()), u64::MAX) {
            Some(n) => ProjectLookup::ById(n),
            None => ProjectLookup::ByName(v),
        },
    }
}

/// A project's name or identifier normalizes to `n`.
pub open spec fn project_named(p: Json, n: Seq<char>) -> bool {
    (str_of(member(p, "name"@)) matches Some(s) && normalized(s) == n) || (str_of(
        member(p, "identifier"@),
    ) matches Some(s) && normalized(s) == n)
}

fn named_chars(p: &JsonValue, key: &str, n: &Vec<char>) -> (r: bool)
    ensures
        r == (str_of(member(p.model(), key@)) matches Some(s) && normalized(s) == n@),
{
    match p.get(key) {
        Some(v) => match v.as_str() {
            Some(s) => crate::text::chars_eq(&normalize_chars(&chars_of(s.as_str())), n),
            None => false,
        },
        None => false,
    }
}

/// The projects whose name or identifier normalizes like `value`.
pub open spec fn projects_named(ps: Seq<Json>, value: Seq<char>) -> Seq<Json> {
    ps.filter(|p: Json| project_named(p, normalized(value)))
}

/// The one project whose name or identifier matches `value` after normalization.
pub fn select_named_project(projects: &Vec<JsonValue>, value: &str) -> (r: Result<JsonValue, CliError>)
    ensures
        ({
            let m = projects_named(model_items(projects@), value@);
            if m.len() == 1 {
                r matches Ok(p) && p.model() == m[0]
            } else if m.len() == 0 {
                failure(r) == Some((ErrorKind::NoProjectMatch, seq![value@]))
            } else {
                failure(r) == Some((ErrorKind::AmbiguousProject, seq![value@]))
            }
        }),
{
    let n = normalize_chars(&chars_of(value));
    let ghost ps = model_items(projects@);
    let ghost pred = |p: Json| project_named(p, normalized(value@));
    proof {
        crate::json::lemma_model_items(projects@);
    }
    let mut count: usize = 0;
    let mut first: usize = 0;
    let mut i: usize = 0;
    assert(ps.take(0).filter(pred) =~= Seq::<Json>::empty());
    while i < projects.len()
        invariant
            i <= projects.len(),
            ps == model_items(projects@),
            ps.len() == projects.len(),
            forall|k: int| 0 <= k < projects.len() ==> #[trigger] ps[k] == projects@[k].model(),
            n@ == normalized(value@),
            pred == (|p: Json| project_named(p, normalized(value@))),
            count == ps.take(i as int).filter(pred).len(),
            count <= i,
            count > 0 ==> first < i && ps.take(i as int).filter(pred)[0] == ps[first as int],
        decreases projects.len() - i,
    {
        let p = &projects[i];
        assert(ps.take(i + 1).drop_last() =~= ps.take(i as int));
        proof {
            reveal_with_fuel(Seq::filter, 1);
        }
        if named_chars(p, "name", &n) || named_chars(p, "identifier", &n) {
            assert(pred(ps[i as int]));
            if count == 0 {
                first = i;
            }
            count = count + 1;
        } else {
            assert(!pred(ps[i as int]));
        }
        i = i + 1;
    }
    assert(ps.take(projects.len() as int) =~= ps);
    if count == 1 {
        Ok(projects[first].copy())
    } else if count == 0 {
        Err(CliError::with(ErrorKind::NoProjectMatch, value.to_owned()))
    } else {
        Err(CliError::with(ErrorKind::AmbiguousProject, value.to_owned()))
    }
}

/// A project's name or identifier normalizes like one of the candidates.
pub open spec fn project_from_evidence(p: Json, cs: Seq<Seq<char>>) -> bool {
    exists|k: int| 0 <= k < cs.len() && project_named(p, normalized(#[trigger] cs[k]))
}

/// `labels` are the related-project labels for these projects and candidates.
pub open spec fn related_labels(ps: Seq<Json>, cs: Seq<Seq<char>>, labels: Seq<Seq<char>>) -> bool {
    exists|ranking: Seq<(nat, Seq<char>)>|
        ranked(ranking) && ranking.to_multiset() == scored_projects(ps, cs).to_multiset() && labels
            == ranking.take(if ranking.len() < 5 {
            ranking.len() as int
        } else {
            5
        }).map_values(|e: (nat, Seq<char>)| e.1)
}

fn evidence_match(p: &JsonValue, normals: &Vec<Vec<char>>, cs: Ghost<Seq<Seq<char>>>) -> (r: bool)
    requires
        normals.len() == cs@.len(),
        forall|k: int| 0 <= k < normals.len() ==> #[trigger] normals@[k]@ == normalized(cs@[k]),
    ensures
        r == project_from_evidence(p.model(), cs@),
{
    let mut k: usize = 0;
    while k < normals.len()
        invariant
            k <= normals.len(),
            normals.len() == cs@.len(),
            forall|j: int| 0 <= j < normals.len() ==> #[trigger] normals@[j]@ == normalized(cs@[j]),
            forall|j: int| 0 <= j < k ==> !project_named(p.model(), normalized(#[trigger] cs@[j])),
        decreases normals.len() - k,
    {
        if named_chars(p, "name", &normals[k]) || named_chars(p, "identifier", &normals[k]) {
            assert(project_named(p.model(), normalized(cs@[k as int])));
            return true;
        }
        k = k + 1;
    }
    false
}

/// The one project that the local evidence names exactly; without one, the
/// related projects are reported, and several exact matches are refused.
pub fn select_directory_project(projects: &Vec<JsonValue>, candidates: &Vec<String>) -> (r: Result<JsonValue, CliError>)
    ensures
        ({
            let ps = model_items(projects@);
            let cs = candidate_views(candidates@);
            let m = ps.filter(|p: Json| project_from_evidence(p, cs));
            if m.len() == 1 {
                r matches Ok(p) && p.model() == m[0]
            } else if m.len() == 0 {
                r matches Err(e) && ((e@.0 == ErrorKind::UnresolvedDirectory && e@.1.len() == 0
                    && related_labels(ps, cs, Seq::empty())) || (e@.0 == ErrorKind::RelatedProjectsOnly
                    && e@.1.len() > 0 && related_labels(ps, cs, e@.1)))
            } else {
                failure(r) == Some((ErrorKind::AmbiguousDirectory, Seq::<Seq<char>>::empty()))
            }
        }),
{
    let ghost ps = model_items(projects@);
    let ghost cs = candidate_views(candidates@);
    let ghost pred = |p: Json| project_from_evidence(p, cs);
    proof {
        crate::json::lemma_model_items(projects@);
    }
    let mut normals: Vec<Vec<char>> = Vec::new();
    let mut j: usize = 0;
    while j < candidates.len()
        invariant
            j <= candidates.len(),
            cs == candidate_views(candidates@),
            normals.len() == j,
            forall|k: int| 0 <= k < j ==> #[trigger] normals@[k]@ == normalized(cs[k]),
        decreases candidates.len() - j,
    {
        normals.push(normalize_chars(&chars_of(candidates[j].as_str())));
        j = j + 1;
    }
    let mut count: usize = 0;
    let mut first: usize = 0;
    let mut i: usize = 0;
    assert(ps.take(0).filter(pred) =~= Seq::<Json>::empty());
    while i < projects.len()
        invariant
            i <= projects.len(),
            ps == model_items(projects@),
            ps.len() == projects.len(),
            forall|k: int| 0 <= k < projects.len() ==> #[trigger] ps[k] == projects@[k].model(),
            cs == candidate_views(candidates@),
            normals.len() == cs.len(),
            forall|k: int| 0 <= k < normals.len() ==> #[trigger] normals@[k]@ == normalized(cs[k]),
            pred == (|p: Json| project_from_evidence(p, cs)),
            count == ps.take(i as int).filter(pred).len(),
            count <= i,
            count > 0 ==> first < i && ps.take(i as int).filter(pred)[0] == ps[first as int],
        decreases projects.len() - i,
    {
        assert(ps.take(i + 1).drop_last() =~= ps.take(i as int));
        proof {
            reveal_with_fuel(Seq::filter, 1);
        }
        if evidence_match(&projects[i], &normals, Ghost(cs)) {
            if count == 0 {
                first = i;
            }
            count = count + 1;
        }
        i = i + 1;
    }
    assert(ps.take(projects.len() as int) =~= ps);
    if count == 1 {
        Ok(projects[first].copy())
    } else if count == 0 {
        let related = related_projects(projects, candidates);
        if related.len() == 0 {
            assert(string_views(related@) =~= Seq::<Seq<char>>::empty());
            Err(CliError::new(ErrorKind::UnresolvedDirectory))
        } else {
            let e = CliError { kind: ErrorKind::RelatedProjectsOnly, args: related };
            assert(e@.1 =~= string_views(e.args@));
            Err(e)
        }
    } else {
        Err(CliError::new(ErrorKind::AmbiguousDirectory))
    }
}

/// The items whose `name` normalizes like `value`.
pub open spec fn items_named(items: Seq<Json>, value: Seq<char>) -> Seq<Json> {
    items.filter(|it: Json| str_of(member(it, "name"@)) matches Some(s) && normalized(s) == normalized(value))
}

/// The outcome of looking up a named item: its `id` when exactly one item's name matches.
pub open spec fn named_item_of(items: Seq<Json>, value: Seq<char>, kind: Seq<char>) -> Result<u64, Failure> {
    let m = items_named(items, value);
    if m.len() == 1 {
        match u64_of(member(m[0], "id"@)) {
            Some(n) => Ok(n),
            None => Err((ErrorKind::MissingId, Seq::<Seq<char>>::empty())),
        }
    } else if m.len() == 0 {
        Err((ErrorKind::NoItemMatch, seq![kind, value]))
    } else {
        Err((ErrorKind::AmbiguousItem, seq![kind, value]))
    }
}

/// The ID of the one item (status, type, priority, version) whose name matches.
pub fn select_named_item(items: &Vec<JsonValue>, value: &str, kind: &str) -> (r: Result<u64, CliError>)
    ensures
        outcome(r, |n: u64| n) == named_item_of(model_items(items@), value@, kind@),
{
    let n = normalize_chars(&chars_of(value));
    let ghost ps = model_items(items@);
    let ghost pred = |it: Json| str_of(member(it, "name"@)) matches Some(s) && normalized(s) == normalized(value@);
    proof {
        crate::json::lemma_model_items(items@);
    }
    let mut count: usize = 0;
    let mut first: usize = 0;
    let mut i: usize = 0;
    assert(ps.take(0).filter(pred) =~= Seq::<Json>::empty());
    while i < items.len()
        invariant
            i <= items.len(),
            ps == model_items(items@),
            ps.len() == items.len(),
            forall|k: int| 0 <= k < items.len() ==> #[trigger] ps[k] == items@[k].model(),
            n@ == normalized(value@),
            pred == (|it: Json| str_of(member(it, "name"@)) matches Some(s) && normalized(s) == normalized(value@)),
            count == ps.take(i as int).filter(pred).len(),
            count <= i,
            count > 0 ==> first < i && ps.take(i as int).filter(pred)[0] == ps[first as int],
        decreases items.len() - i,
    {
        assert(ps.take(i + 1).drop_last() =~= ps.take(i as int));
        proof {
            reveal_with_fuel(Seq::filter, 1);
        }
        if named_chars(&items[i], "name", &n) {
            if count == 0 {
                first = i;
            }
            count = count + 1;
        }
        i = i + 1;
    }
    assert(ps.take(items.len() as int) =~= ps);
    assert(items_named(ps, value@) == ps.filter(pred));
    if count == 1 {
        id(&items[first])
    } else if count == 0 {
        Err(CliError::with2(ErrorKind::NoItemMatch, kind.to_owned(), value.to_owned()))
    } else {
        Err(CliError::with2(ErrorKind::AmbiguousItem, kind.to_owned(), value.to_owned()))
    }
}

/// A value that parses as a `u64` is an ID and needs no lookup.
pub fn item_number(value: &str) -> (r: Option<u64>)
    ensures
        match r {
            Some(n) => crate::text::parse_unsigned(value@, u64::MAX as nat) == Some(n as nat),
            None => crate::text::parse_unsigned(value@, u64::MAX as nat) is None,
        },
{
    crate::text::parse_unsigned_chars(&chars_of(value), u64::MAX)
}

/// Resolves a named or numeric item; `items` is the fetched collection, needed
/// only when `value` is not numeric.
pub fn resolve_item(value: &str, items: Option<&Vec<JsonValue>>, kind: &str) -> (r: Result<u64, CliError>)
    requires
        crate::text::parse_unsigned(value@, u64::MAX as nat) is None ==> items is Some,
    ensures
        outcome(r, |n: u64| n) == match crate::text::parse_unsigned(value@, u64::MAX as nat) {
            Some(n) => Ok(n as u64),
            None => named_item_of(model_items(items->0@), value@, kind@),
        },
{
    match item_number(value) {
        Some(n) => Ok(n),
        None => match items {
            Some(list) => select_named_item(list, value, kind),
            None => Err(CliError::new(ErrorKind::MissingId)),
        },
    }
}

/// Whether some value is not numeric, so that the collection must be fetched.
pub fn items_need_lookup(values: &Vec<String>) -> (r: bool)
    ensures
        r == exists|k: int| 0 <= k < values.len() && crate::text::parse_unsigned(#[trigger] values@[k]@, u64::MAX as nat) is None,
{
    let mut i: usize = 0;
    while i < values.len()
        invariant
            i <= values.len(),
            forall|k: int| 0 <= k < i ==> crate::text::parse_unsigned(#[trigger] values@[k]@, u64::MAX as nat) is Some,
        decreases values.len() - i,
    {
        if item_number(values[i].as_str()).is_none() {
            return true;
        }
        i = i + 1;
    }
    false
}

/// The outcome of resolving each value in turn, stopping at the first failure.
pub open spec fn items_of(values: Seq<Seq<char>>, items: Seq<Json>, kind: Seq<char>) -> Result<Seq<u64>, Failure>
    decreases values.len(),
{
    if values.len() == 0 {
        Ok(Seq::empty())
    } else {
        match items_of(values.drop_last(), items, kind) {
            Err(e) => Err(e),
            Ok(ids) => match (match crate::text::parse_unsigned(values.last(), u64::MAX as nat) {
                Some(n) => Ok(n as u64),
                None => named_item_of(items, values.last(), kind),
            }) {
                Err(e) => Err(e),
                Ok(n) => Ok(ids.push(n)),
            },
        }
    }
}

/// Once resolving a prefix fails, resolving the whole list fails the same way.
pub proof fn lemma_items_of_stops(values: Seq<Seq<char>>, items: Seq<Json>, kind: Seq<char>, k: int)
    requires
        0 <= k <= values.len(),
        items_of(values.take(k), items, kind) is Err,
    ensures
        items_of(values, items, kind) == items_of(values.take(k), items, kind),
    decreases values.len() - k,
{
    if k == values.len() {
        assert(values.take(k) =~= values);
    } else {
        let shorter = values.drop_last();
        assert(shorter.take(k) =~= values.take(k));
        lemma_items_of_stops(shorter, items, kind, k);
    }
}

/// Resolves repeated filter values (statuses, types, priorities) to IDs.
pub fn resolve_items(values: &Vec<String>, items: Option<&Vec<JsonValue>>, kind: &str) -> (r: Result<Vec<u64>, CliError>)
    requires
        (exists|k: int| 0 <= k < values.len() && crate::text::parse_unsigned(#[trigger] values@[k]@, u64::MAX as nat) is None) ==> items is Some,
    ensures
        outcome(r, |v: Vec<u64>| v@) == items_of(
            string_views(values@),
            match items {
                Some(l) => model_items(l@),
                None => Seq::empty(),
            },
            kind@,
        ),
{
    let ghost vs = string_views(values@);
    let ghost its = match items {
        Some(l) => model_items(l@),
        None => Seq::<Json>::empty(),
    };
    let mut out: Vec<u64> = Vec::new();
    let mut i: usize = 0;
    assert(vs.take(0) =~= Seq::<Seq<char>>::empty());
    while i < values.len()
        invariant
            i <= values.len(),
            vs == string_views(values@),
            its == match items {
                Some(l) => model_items(l@),
                None => Seq::<Json>::empty(),
            },
            (exists|k: int| 0 <= k < values.len() && crate::text::parse_unsigned(#[trigger] values@[k]@, u64::MAX as nat) is None) ==> items is Some,
            items_of(vs.take(i as int), its, kind@) == Ok::<Seq<u64>, Failure>(out@),
        decreases values.len() - i,
    {
        assert(vs.take(i + 1).drop_last() =~= vs.take(i as int));
        assert(vs.take(i + 1).last() == values@[i as int]@);
        let n = resolve_item(values[i].as_str(), items, kind);
        match n {
            Ok(n) => {
                out.push(n);
            },
            Err(e) => {
                proof {
                    lemma_items_of_stops(vs, its, kind@, i + 1);
                }
                return Err(e);
            },
        }
        i = i + 1;
    }
    assert(vs.take(values.len() as int) =~= vs);
    Ok(out)
}

/// A user reference: the current user or a numeric ID.
#[derive(Debug, Clone, Copy, PartialEq, Eq, Structural)]
pub enum UserRef {
    Me,
    Id(u64),
}

/// A user given as `me` (in any ASCII case) or a numeric ID.
pub fn resolve_user(value: &str) -> (r: Result<UserRef, CliError>)
    ensures
        outcome(r, |u: UserRef| u) == if crate::text::lower_seq(value@) == "me"@ {
            Ok(UserRef::Me)
        } else {
            match crate::text::parse_unsigned(value@, u64::MAX as nat) {
                Some(n) => Ok(UserRef::Id(n as u64)),
                None => Err((ErrorKind::InvalidUser, Seq::<Seq<char>>::empty())),
            }
        },
{
    let v = chars_of(value);
    if crate::text::chars_eq(&crate::text::lowercase(&v), &chars_of("me")) {
        return Ok(UserRef::Me);
    }
    match crate::text::parse_unsigned_chars(&v, u64::MAX) {
        Some(n) => Ok(UserRef::Id(n)),
        None => Err(CliError::new(ErrorKind::InvalidUser)),
    }
}

/// A name that would join the candidates were it new: not blank and with a
/// non-empty normalized form.
pub open spec fn offerable(n: Seq<char>) -> bool {
    trim(n).len() > 0 && normalized(trim(n)).len() > 0
}

proof fn lemma_add_contains(a: Seq<Seq<char>>, b: Seq<Seq<char>>, x: Seq<char>)
    ensures
        a.contains(x) || b.contains(x) ==> (a + b).contains(x),
{
    if a.contains(x) {
        let i = choose|i: int| 0 <= i < a.len() && a[i] == x;
        assert((a + b)[i] == x);
    } else if b.contains(x) {
        let i = choose|i: int| 0 <= i < b.len() && b[i] == x;
        assert((a + b)[a.len() + i] == x);
    }
}

proof fn lemma_in_parts(
    o1: Seq<Seq<char>>,
    o2: Seq<Seq<char>>,
    o3: Seq<Seq<char>>,
    o4: Seq<Seq<char>>,
    o5: Seq<Seq<char>>,
    o6: Seq<Seq<char>>,
    o7: Seq<Seq<char>>,
    x: Seq<char>,
)
    requires
        o1.contains(x) || o2.contains(x) || o3.contains(x) || o4.contains(x) || o5.contains(x) || o6.contains(x)
            || o7.contains(x),
    ensures
        (o1 + o2 + o3 + o4 + o5 + o6 + o7).contains(x),
{
    lemma_add_contains(o1, o2, x);
    lemma_add_contains(o1 + o2, o3, x);
    lemma_add_contains(o1 + o2 + o3, o4, x);
    lemma_add_contains(o1 + o2 + o3 + o4, o5, x);
    lemma_add_contains(o1 + o2 + o3 + o4 + o5, o6, x);
    lemma_add_contains(o1 + o2 + o3 + o4 + o5 + o6, o7, x);
}

proof fn lemma_cover_one(
    o1: Seq<Seq<char>>,
    o2: Seq<Seq<char>>,
    o3: Seq<Seq<char>>,
    o4: Seq<Seq<char>>,
    o5: Seq<Seq<char>>,
    o6: Seq<Seq<char>>,
    o7: Seq<Seq<char>>,
    x: Seq<char>,
)
    requires
        o1.contains(x) || o2.contains(x) || o3.contains(x) || o4.contains(x) || o5.contains(x) || o6.contains(x)
            || o7.contains(x),
        offerable(x),
    ensures
        has_normalized(candidates_from(Seq::empty(), o1 + o2 + o3 + o4 + o5 + o6 + o7), normalized(trim(x))),
{
    lemma_in_parts(o1, o2, o3, o4, o5, o6, o7, x);
    lemma_candidates_cover(Seq::empty(), o1 + o2 + o3 + o4 + o5 + o6 + o7, x);
}

proof fn lemma_cover_parts(
    v1: Option<Seq<char>>,
    v2: Option<Seq<char>>,
    v3: Option<Seq<char>>,
    v4: Option<Seq<char>>,
    v5: Option<Seq<char>>,
    v6: Option<Seq<char>>,
    v7: Option<Seq<char>>,
)
    ensures
        ({
            let c = candidates_from(
                Seq::empty(),
                opt_seq(v1) + opt_seq(v2) + opt_seq(v3) + opt_seq(v4) + opt_seq(v5) + opt_seq(v6) + opt_seq(v7),
            );
            &&& (v1 matches Some(n) ==> (offerable(n) ==> has_normalized(c, normalized(trim(n)))))
            &&& (v2 matches Some(n) ==> (offerable(n) ==> has_normalized(c, normalized(trim(n)))))
            &&& (v3 matches Some(n) ==> (offerable(n) ==> has_normalized(c, normalized(trim(n)))))
            &&& (v4 matches Some(n) ==> (offerable(n) ==> has_normalized(c, normalized(trim(n)))))
            &&& (v5 matches Some(n) ==> (offerable(n) ==> has_normalized(c, normalized(trim(n)))))
            &&& (v6 matches Some(n) ==> (offerable(n) ==> has_normalized(c, normalized(trim(n)))))
            &&& (v7 matches Some(n) ==> (offerable(n) ==> has_normalized(c, normalized(trim(n)))))
        }),
{
    let (o1, o2, o3, o4, o5, o6, o7) = (opt_seq(v1), opt_seq(v2), opt_seq(v3), opt_seq(v4), opt_seq(v5), opt_seq(v6), opt_seq(v7));
    if let Some(n) = v1 { assert(o1[0] == n); if offerable(n) { lemma_cover_one(o1, o2, o3, o4, o5, o6, o7, n); } }
    if let Some(n) = v2 { assert(o2[0] == n); if offerable(n) { lemma_cover_one(o1, o2, o3, o4, o5, o6, o7, n); } }
    if let Some(n) = v3 { assert(o3[0] == n); if offerable(n) { lemma_cover_one(o1, o2, o3, o4, o5, o6, o7, n); } }
    if let Some(n) = v4 { assert(o4[0] == n); if offerable(n) { lemma_cover_one(o1, o2, o3, o4, o5, o6, o7, n); } }
    if let Some(n) = v5 { assert(o5[0] == n); if offerable(n) { lemma_cover_one(o1, o2, o3, o4, o5, o6, o7, n); } }
    if let Some(n) = v6 { assert(o6[0] == n); if offerable(n) { lemma_cover_one(o1, o2, o3, o4, o5, o6, o7, n); } }
    if let Some(n) = v7 { assert(o7[0] == n); if offerable(n) { lemma_cover_one(o1, o2, o3, o4, o5, o6, o7, n); } }
}

proof fn lemma_candidates_keep(cs: Seq<Seq<char>>, names: Seq<Seq<char>>, n: Seq<char>)
    requires
        has_normalized(cs, n),
    ensures
        has_normalized(candidates_from(cs, names), n),
    decreases names.len(),
{
    if names.len() > 0 {
        lemma_candidates_keep(cs, names.drop_last(), n);
        let prev = candidates_from(cs, names.drop_last());
        let i = choose|i: int| 0 <= i < prev.len() && normalized(#[trigger] prev[i]) == n;
        if candidate_added(prev, names.last()) {
            assert(prev.push(trim(names.last()))[i] == prev[i]);
        }
    }
}

proof fn lemma_candidates_cover(cs: Seq<Seq<char>>, names: Seq<Seq<char>>, x: Seq<char>)
    requires
        names.contains(x),
        offerable(x),
    ensures
        has_normalized(candidates_from(cs, names), normalized(trim(x))),
    decreases names.len(),
{
    let k = choose|k: int| 0 <= k < names.len() && names[k] == x;
    let prev = candidates_from(cs, names.drop_last());
    if k == names.len() - 1 {
        if candidate_added(prev, x) {
            let r = prev.push(trim(x));
            assert(normalized(r[prev.len() as int]) == normalized(trim(x)));
        }
    } else {
        assert(names.drop_last()[k] == x);
        lemma_candidates_cover(cs, names.drop_last(), x);
        if candidate_added(prev, names.last()) {
            let i = choose|i: int| 0 <= i < prev.len() && normalized(#[trigger] prev[i]) == normalized(trim(x));
            assert(prev.push(trim(names.last()))[i] == prev[i]);
        }
    }
}

proof fn lemma_candidates_come_from(cs: Seq<Seq<char>>, names: Seq<Seq<char>>, i: int)
    requires
        0 <= i < candidates_from(cs, names).len(),
    ensures
        cs.contains(candidates_from(cs, names)[i])
            || exists|k: int| 0 <= k < names.len() && candidates_from(cs, names)[i] == trim(#[trigger] names[k]),
    decreases names.len(),
{
    if names.len() > 0 {
        let prev = candidates_from(cs, names.drop_last());
        if i < prev.len() {
            lemma_candidates_come_from(cs, names.drop_last(), i);
            if candidate_added(prev, names.last()) {
                assert(prev.push(trim(names.last()))[i] == prev[i]);
            }
            if !cs.contains(prev[i]) {
                let k = choose|k: int| 0 <= k < names.drop_last().len() && prev[i] == trim(#[trigger] names.drop_last()[k]);
                assert(names[k] == names.drop_last()[k]);
            }
        } else {
            assert(candidates_from(cs, names)[i] == trim(names[names.len() - 1]));
        }
    }
}

/// Every name the local evidence offers is among the project candidates, up to
/// normalization: the repository and current directory names, the README's
/// first heading, the `name` of `Cargo.toml`'s `[package]` and of
/// `pyproject.toml`'s `[project]` section, and the `name` of `package.json`
/// and `composer.json` (each unless blank). Every candidate is one of those
/// names, trimmed.
pub proof fn law_evidence_names_are_candidates(
    root_name: Option<Seq<char>>,
    cwd_name: Option<Seq<char>>,
    readme: Option<Seq<char>>,
    cargo_toml: Option<Seq<char>>,
    pyproject_toml: Option<Seq<char>>,
    package_json: Option<Seq<char>>,
    composer_json: Option<Seq<char>>,
)
    ensures
        ({
            let names = evidence_names(root_name, cwd_name, readme, cargo_toml, pyproject_toml, package_json, composer_json);
            let c = candidates_from(Seq::empty(), names);
            &&& (root_name matches Some(n) ==> (offerable(n) ==> has_normalized(c, normalized(trim(n)))))
            &&& (cwd_name matches Some(n) ==> (offerable(n) ==> has_normalized(c, normalized(trim(n)))))
            &&& (readme matches Some(t) ==> (heading_scan(lines(t), 0) matches Some(n) ==> (offerable(n)
                ==> has_normalized(c, normalized(trim(n))))))
            &&& (cargo_toml matches Some(t) ==> (manifest_name_of(t, "package"@) matches Some(n) ==> (offerable(n)
                ==> has_normalized(c, normalized(trim(n))))))
            &&& (pyproject_toml matches Some(t) ==> (manifest_name_of(t, "project"@) matches Some(n) ==> (offerable(n)
                ==> has_normalized(c, normalized(trim(n))))))
            &&& (package_json matches Some(t) ==> (json_manifest_name_of(t) matches Some(n) ==> (offerable(n)
                ==> has_normalized(c, normalized(trim(n))))))
            &&& (composer_json matches Some(t) ==> (json_manifest_name_of(t) matches Some(n) ==> (offerable(n)
                ==> has_normalized(c, normalized(trim(n))))))
            &&& forall|i: int| #![trigger c[i]] 0 <= i < c.len() ==> exists|k: int| 0 <= k < names.len() && c[i] == trim(#[trigger] names[k])
        }),
{
    let v3 = match readme { Some(r) => heading_scan(lines(r), 0), None => None };
    let v4 = match cargo_toml { Some(t) => manifest_name_of(t, "package"@), None => None };
    let v5 = match pyproject_toml { Some(t) => manifest_name_of(t, "project"@), None => None };
    let v6 = match package_json { Some(t) => json_manifest_name_of(t), None => None };
    let v7 = match composer_json { Some(t) => json_manifest_name_of(t), None => None };
    let names = evidence_names(root_name, cwd_name, readme, cargo_toml, pyproject_toml, package_json, composer_json);
    assert(names == opt_seq(root_name) + opt_seq(cwd_name) + opt_seq(v3) + opt_seq(v4) + opt_seq(v5) + opt_seq(v6) + opt_seq(v7));
    lemma_cover_parts(root_name, cwd_name, v3, v4, v5, v6, v7);
    let c = candidates_from(Seq::empty(), names);
    assert forall|i: int| #![trigger c[i]] 0 <= i < c.len() implies exists|k: int| 0 <= k < names.len() && c[i] == trim(#[trigger] names[k]) by {
        lemma_candidates_come_from(Seq::empty(), names, i);
    }
}

/// A TOML section header line (`[...]`, surrounding white space aside).
pub open spec fn header_line(line: Seq<char>) -> bool {
    trim(line).len() > 0 && trim(line)[0] == '[' && trim(line).last() == ']'
}

/// A `name = value` line whose value, without white space and quotes, is `n`.
pub open spec fn name_line(line: Seq<char>, n: Seq<char>) -> bool {
    crate::text::split_once(trim(line), '=') matches Some((k, v)) && trim(k) == "name"@ && n == trim_quotes(trim(v))
}

proof fn lemma_scan_sound(ls: Seq<Seq<char>>, header: Seq<char>, i: int, inside: bool, n: Seq<char>)
    requires
        0 <= i,
        manifest_scan(ls, header, i, inside) == Some(n),
    ensures
        (inside && exists|j: int| #![trigger ls[j]]
            i <= j < ls.len() && name_line(ls[j], n) && forall|m: int| i <= m < j ==> !header_line(#[trigger] ls[m]))
            || exists|h: int, j: int| #![trigger ls[h], ls[j]]
            i <= h < j < ls.len() && trim(ls[h]) == header && name_line(ls[j], n)
                && forall|m: int| h < m < j ==> !header_line(#[trigger] ls[m]),
    decreases ls.len() - i,
{
    let line = trim(ls[i]);
    if line.len() > 0 && line[0] == '[' && line.last() == ']' {
        lemma_scan_sound(ls, header, i + 1, line == header, n);
        if line == header && exists|j: int| #![trigger ls[j]]
            i + 1 <= j < ls.len() && name_line(ls[j], n) && forall|m: int| i + 1 <= m < j ==> !header_line(#[trigger] ls[m]) {
            let j = choose|j: int| #![trigger ls[j]]
                i + 1 <= j < ls.len() && name_line(ls[j], n) && forall|m: int| i + 1 <= m < j ==> !header_line(#[trigger] ls[m]);
            assert(trim(ls[i]) == header && name_line(ls[j], n));
        }
    } else {
        match crate::text::split_once(line, '=') {
            Some((key, value)) if inside && trim(key) == "name"@ => {
                assert(name_line(ls[i], n));
            },
            _ => {
                lemma_scan_sound(ls, header, i + 1, inside, n);
                if inside && exists|j: int| #![trigger ls[j]]
                    i + 1 <= j < ls.len() && name_line(ls[j], n) && forall|m: int| i + 1 <= m < j ==> !header_line(#[trigger] ls[m]) {
                    let j = choose|j: int| #![trigger ls[j]]
                        i + 1 <= j < ls.len() && name_line(ls[j], n) && forall|m: int| i + 1 <= m < j ==> !header_line(#[trigger] ls[m]);
                    assert(!header_line(ls[i]));
                    assert forall|m: int| i <= m < j implies !header_line(#[trigger] ls[m]) by {
                        if m > i {
                        }
                    }
                }
            },
        }
    }
}

/// A manifest name read from a TOML section comes from inside that section:
/// there is a `[section]` header line, later a `name = value` line whose
/// value, without white space and quotes, is the name, and no other section
/// header between them.
pub proof fn law_manifest_name_is_in_its_section(contents: Seq<char>, section: Seq<char>, n: Seq<char>)
    requires
        manifest_name_of(contents, section) == Some(n),
    ensures
        ({
            let ls = lines(contents);
            exists|h: int, j: int| #![trigger ls[h], ls[j]]
                0 <= h < j < ls.len() && trim(ls[h]) == seq!['['] + section + seq![']'] && name_line(ls[j], n)
                    && forall|m: int| h < m < j ==> !header_line(#[trigger] ls[m])
        }),
{
    lemma_scan_sound(lines(contents), seq!['['] + section + seq![']'], 0, false, n);
}

/// The README heading is the first line that, without surrounding white space,
/// starts with `# `, less that marker; there is none when no line does.
pub proof fn law_readme_heading_is_the_first(ls: Seq<Seq<char>>)
    ensures
        match heading_scan(ls, 0) {
            Some(h) => exists|i: int| #![trigger ls[i]]
                0 <= i < ls.len() && starts_with(trim(ls[i]), "# "@) && h == trim(ls[i]).skip(2)
                    && forall|j: int| 0 <= j < i ==> !starts_with(trim(#[trigger] ls[j]), "# "@),
            None => forall|j: int| 0 <= j < ls.len() ==> !starts_with(trim(#[trigger] ls[j]), "# "@),
        },
{
    lemma_heading_scan(ls, 0);
}

proof fn lemma_heading_scan(ls: Seq<Seq<char>>, i: int)
    requires
        0 <= i,
    ensures
        match heading_scan(ls, i) {
            Some(h) => exists|k: int| #![trigger ls[k]]
                i <= k < ls.len() && starts_with(trim(ls[k]), "# "@) && h == trim(ls[k]).skip(2)
                    && forall|j: int| i <= j < k ==> !starts_with(trim(#[trigger] ls[j]), "# "@),
            None => forall|j: int| i <= j < ls.len() ==> !starts_with(trim(#[trigger] ls[j]), "# "@),
        },
    decreases ls.len() - i,
{
    if i < ls.len() && !starts_with(trim(ls[i]), "# "@) {
        lemma_heading_scan(ls, i + 1);
    }
}

} // verus!
