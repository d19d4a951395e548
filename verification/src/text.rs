//! Source text preprocessing: comment stripping, whitespace normalization,
//! blank-line dropping and `.eqv` macro expansion — and the tokenizer that
//! splits raw text into the atomic elements of the MIPS language.
//!
//! A line's whitespace here is the ASCII kinds that assembly source uses:
//! space, tab and carriage return; other characters count as token text.

use vstd::prelude::*;
use crate::strutil::str_eq;

verus! {

/// Whitespace inside one line.
pub open spec fn is_line_space(c: char) -> bool {
    c == ' ' || c == '\t' || c == '\r'
}

/// A separator for the tokenizer: a comma or any whitespace.
pub open spec fn is_sep(c: char) -> bool {
    c == ',' || c == ' ' || c == '\t' || c == '\r' || c == '\n'
}

/// The number of characters before the first occurrence of `stop` (or all
/// of `s`, when it never occurs).
pub open spec fn until_char(s: Seq<char>, stop: char) -> nat
    decreases s.len(),
{
    if s.len() == 0 || s[0] == stop {
        0
    } else {
        (1 + until_char(s.drop_first(), stop)) as nat
    }
}

/// `until_char` never runs past the end.
pub proof fn lemma_until_char_le(s: Seq<char>, stop: char)
    ensures
        until_char(s, stop) <= s.len(),
    decreases s.len(),
{
    if s.len() > 0 && s[0] != stop {
        lemma_until_char_le(s.drop_first(), stop);
    }
}

/// `until_char` is the unique boundary: everything before `k` differs from
/// `stop`, and `k` is the end or carries `stop`.
pub proof fn lemma_until_char_is(s: Seq<char>, stop: char, k: int)
    requires
        0 <= k <= s.len(),
        forall|j: int| 0 <= j < k ==> s[j] != stop,
        k < s.len() ==> s[k] == stop,
    ensures
        until_char(s, stop) == k,
    decreases k,
{
    if k > 0 {
        lemma_until_char_is(s.drop_first(), stop, k - 1);
    }
}

/// Which separator family a split uses.
#[derive(Clone, Copy, Debug, PartialEq, Eq, Structural)]
pub enum SepKind {
    /// Commas and all whitespace: the tokenizer's separators.
    CommaOrSpace,
    /// Whitespace within one line: the preprocessor's separators.
    LineSpace,
}

/// The separator test the kind selects.
pub open spec fn sep_at(kind: SepKind, c: char) -> bool {
    match kind {
        SepKind::CommaOrSpace => is_sep(c),
        SepKind::LineSpace => is_line_space(c),
    }
}

/// The length of the token starting at the head of `s`, for the separator
/// kind `kind`.
pub open spec fn token_len(s: Seq<char>, sep: SepKind) -> nat
    decreases s.len(),
{
    if s.len() == 0 || sep_at(sep, s[0]) {
        0
    } else {
        (1 + token_len(s.drop_first(), sep)) as nat
    }
}

/// A token never runs past the end.
pub proof fn lemma_token_len_le(s: Seq<char>, sep: SepKind)
    ensures
        token_len(s, sep) <= s.len(),
    decreases s.len(),
{
    if s.len() > 0 && !sep_at(sep, s[0]) {
        lemma_token_len_le(s.drop_first(), sep);
    }
}

/// The token boundary is unique: no separator before `k`, and `k` is the
/// end or a separator.
pub proof fn lemma_token_len_is(s: Seq<char>, sep: SepKind, k: int)
    requires
        0 <= k <= s.len(),
        forall|j: int| 0 <= j < k ==> !sep_at(sep, s[j]),
        k < s.len() ==> sep_at(sep, s[k]),
    ensures
        token_len(s, sep) == k,
    decreases k,
{
    if k > 0 {
        lemma_token_len_is(s.drop_first(), sep, k - 1);
    }
}

/// The maximal separator-free pieces of `s`, in order, empties dropped.
pub open spec fn split_tokens(s: Seq<char>, sep: SepKind) -> Seq<Seq<char>>
    decreases s.len(),
    via split_tokens_decreases
{
    if s.len() == 0 {
        Seq::<Seq<char>>::empty()
    } else if sep_at(sep, s[0]) {
        split_tokens(s.drop_first(), sep)
    } else {
        seq![s.take(token_len(s, sep) as int)] + split_tokens(s.skip(token_len(s, sep) as int), sep)
    }
}

#[via_fn]
proof fn split_tokens_decreases(s: Seq<char>, sep: SepKind) {
    if s.len() > 0 && !sep_at(sep, s[0]) {
        lemma_token_len_le(s, sep);
    }
}

/// What the tokenizer returns: the comma- and whitespace-separated pieces
/// of the raw text.
pub open spec fn spec_tokenize(s: Seq<char>) -> Seq<Seq<char>> {
    split_tokens(s, SepKind::CommaOrSpace)
}

/// Exec test for a tokenizer separator.
fn sep_exec(c: char) -> (r: bool)
    ensures
        r == is_sep(c),
{
    c == ',' || c == ' ' || c == '\t' || c == '\r' || c == '\n'
}

/// Splits a string into the meaningful, atomic elements of the MIPS
/// language: the pieces between commas and whitespace, empties dropped.
#[verifier::loop_isolation(false)]
pub fn tokenize<'a>(raw_text: &'a str) -> (r: Vec<&'a str>)
    ensures
        r.deep_view() == spec_tokenize(raw_text@),
{
    let ghost sep = SepKind::CommaOrSpace;
    let n = raw_text.unicode_len();
    let mut r: Vec<&'a str> = Vec::new();
    let mut i: usize = 0;
    proof {
        assert(raw_text@.skip(0) =~= raw_text@);
        assert(r.deep_view() + split_tokens(raw_text@, sep) =~= split_tokens(raw_text@, sep));
    }
    while i < n
        invariant
            i <= n,
            spec_tokenize(raw_text@) == r.deep_view() + split_tokens(
                raw_text@.skip(i as int),
                sep,
            ),
        decreases n - i,
    {
        let c = raw_text.get_char(i);
        if sep_exec(c) {
            proof {
                assert(raw_text@.skip(i as int).drop_first() =~= raw_text@.skip(i + 1));
            }
            i += 1;
        } else {
            let mut j: usize = i + 1;
            while j < n
                invariant
                    i < j <= n,
                    forall|k: int| i <= k < j ==> !sep_at(sep, #[trigger] raw_text@[k]),
                decreases n - j,
            {
                let cj = raw_text.get_char(j);
                if sep_exec(cj) {
                    break ;
                }
                j += 1;
            }
            let tok = raw_text.substring_char(i, j);
            proof {
                let rest = raw_text@.skip(i as int);
                assert forall|k: int| 0 <= k < j - i implies !sep_at(sep, #[trigger] rest[k]) by {
                    assert(rest[k] == raw_text@[k + i]);
                }
                if j < n {
                    assert(rest[j - i] == raw_text@[j as int]);
                }
                lemma_token_len_is(rest, sep, j - i);
                assert(rest.take(j - i) =~= raw_text@.subrange(i as int, j as int));
                assert(rest.skip(j - i) =~= raw_text@.skip(j as int));
            }
            let ghost prev = r.deep_view();
            r.push(tok);
            proof {
                assert(r.deep_view() =~= prev.push(tok@));
                assert(prev + (seq![tok@] + split_tokens(raw_text@.skip(j as int), sep)) =~= prev.push(
                    tok@,
                ) + split_tokens(raw_text@.skip(j as int), sep));
            }
            i = j;
        }
    }
    proof {
        assert(raw_text@.skip(n as int) =~= Seq::<char>::empty());
        assert(r.deep_view() + Seq::<Seq<char>>::empty() =~= r.deep_view());
    }
    r
}

/// The line's content before its comment marker: everything from `#` to the
/// end of the line is stripped.
pub open spec fn cut_comment(line: Seq<char>) -> Seq<char> {
    line.take(until_char(line, '#') as int)
}

/// The tokens of one line, after comment stripping.
pub open spec fn line_tokens(line: Seq<char>) -> Seq<Seq<char>> {
    split_tokens(cut_comment(line), SepKind::LineSpace)
}

/// A token after macro substitution: its recorded replacement when the
/// `.eqv` table holds it, the token itself otherwise.
pub open spec fn subst(tok: Seq<char>, eqv: Map<Seq<char>, Seq<char>>) -> Seq<char> {
    if eqv.contains_key(tok) {
        eqv[tok]
    } else {
        tok
    }
}

/// Tokens joined with one space.
pub open spec fn join_sp(toks: Seq<Seq<char>>) -> Seq<char>
    decreases toks.len(),
{
    if toks.len() == 0 {
        Seq::<char>::empty()
    } else if toks.len() == 1 {
        toks[0]
    } else {
        join_sp(toks.drop_last()) + seq![' '] + toks.last()
    }
}

/// Lines joined with one newline.
pub open spec fn join_nl(lines: Seq<Seq<char>>) -> Seq<char>
    decreases lines.len(),
{
    if lines.len() == 0 {
        Seq::<char>::empty()
    } else if lines.len() == 1 {
        lines[0]
    } else {
        join_nl(lines.drop_last()) + seq!['\n'] + lines.last()
    }
}

/// The lines of the input, split on newline characters; empty lines are
/// kept here and dropped by the processing that follows.
pub open spec fn split_lines(s: Seq<char>) -> Seq<Seq<char>>
    decreases s.len(),
    via split_lines_decreases
{
    if s.len() == 0 {
        Seq::<Seq<char>>::empty()
    } else {
        let k = until_char(s, '\n') as int;
        if k == s.len() {
            seq![s]
        } else {
            seq![s.take(k)] + split_lines(s.skip(k + 1))
        }
    }
}

#[via_fn]
proof fn split_lines_decreases(s: Seq<char>) {
    if s.len() > 0 {
        lemma_until_char_le(s, '\n');
    }
}

/// What preprocessing leaves of the given lines, under the `.eqv` table
/// accumulated so far: a tokenless line is dropped; a line whose first
/// token is `.eqv` records its name and value (and is dropped — one with
/// fewer than two operands records nothing); any other line is re-emitted
/// as its tokens, each substituted through the table, joined by single
/// spaces.  A `.eqv` affects only the lines after it.
pub open spec fn preprocess_lines(
    lines: Seq<Seq<char>>,
    eqv: Map<Seq<char>, Seq<char>>,
) -> Seq<Seq<char>>
    decreases lines.len(),
{
    if lines.len() == 0 {
        Seq::<Seq<char>>::empty()
    } else {
        let toks = line_tokens(lines[0]);
        if toks.len() == 0 {
            preprocess_lines(lines.drop_first(), eqv)
        } else if toks[0] == ".eqv"@ {
            if toks.len() >= 3 {
                preprocess_lines(lines.drop_first(), eqv.insert(toks[1], toks[2]))
            } else {
                preprocess_lines(lines.drop_first(), eqv)
            }
        } else {
            seq![join_sp(toks.map_values(|t: Seq<char>| subst(t, eqv)))] + preprocess_lines(
                lines.drop_first(),
                eqv,
            )
        }
    }
}

/// What `preprocess` returns for the whole input.
pub open spec fn preprocess_spec(s: Seq<char>) -> Seq<char> {
    join_nl(preprocess_lines(split_lines(s), Map::<Seq<char>, Seq<char>>::empty()))
}

/// The map denoted by an `.eqv` entry sequence; a later entry for the same
/// name overrides an earlier one.
pub open spec fn eqv_entries_map(s: Seq<(String, String)>) -> Map<Seq<char>, Seq<char>>
    decreases s.len(),
{
    if s.len() == 0 {
        Map::empty()
    } else {
        eqv_entries_map(s.drop_last()).insert(s.last().0@, s.last().1@)
    }
}

/// When no entry from index `i` on carries key `k`, the first `i` entries
/// already decide `k`.
proof fn lemma_eqv_entries_map_suffix(s: Seq<(String, String)>, i: int, k: Seq<char>)
    requires
        0 <= i <= s.len(),
        forall|j: int| i <= j < s.len() ==> (#[trigger] s[j]).0@ != k,
    ensures
        eqv_entries_map(s).contains_key(k) == eqv_entries_map(s.take(i)).contains_key(k),
        eqv_entries_map(s).contains_key(k) ==> eqv_entries_map(s)[k] == eqv_entries_map(s.take(i))[k],
    decreases s.len() - i,
{
    if i < s.len() {
        assert(s.drop_last() =~= s.take(s.len() - 1));
        lemma_eqv_entries_map_suffix(s.take(s.len() - 1), i, k);
        assert(s.take(s.len() - 1).take(i) =~= s.take(i));
    } else {
        assert(s.take(i) =~= s);
    }
}

/// The `.eqv` macro table of one assembly run.
pub struct EqvTable {
    entries: Vec<(String, String)>,
}

impl View for EqvTable {
    type V = Map<Seq<char>, Seq<char>>;

    closed spec fn view(&self) -> Map<Seq<char>, Seq<char>> {
        eqv_entries_map(self.entries@)
    }
}

impl EqvTable {
    /// An empty table.
    pub fn new() -> (t: EqvTable)
        ensures
            t@ == Map::<Seq<char>, Seq<char>>::empty(),
    {
        EqvTable { entries: Vec::new() }
    }

    /// Records `name -> value`; recording the same name again overrides.
    pub fn insert(&mut self, name: String, value: String)
        ensures
            final(self)@ == old(self)@.insert(name@, value@),
    {
        self.entries.push((name, value));
        proof {
            assert(self.entries@.drop_last() =~= old(self).entries@);
        }
    }

    /// Looks a name up: its recorded replacement, if any.
    #[verifier::loop_isolation(false)]
    pub fn get(&self, name: &str) -> (r: Option<String>)
        ensures
            match r {
                Some(v) => self@.contains_key(name@) && v@ == self@[name@],
                None => !self@.contains_key(name@),
            },
    {
        let mut i: usize = self.entries.len();
        while i > 0
            invariant
                i <= self.entries.len(),
                forall|j: int| i <= j < self.entries@.len() ==> (#[trigger] self.entries@[j]).0@
                    != name@,
            decreases i,
        {
            i = i - 1;
            if str_eq(self.entries[i].0.as_str(), name) {
                proof {
                    lemma_eqv_entries_map_suffix(self.entries@, i + 1, name@);
                    assert(self.entries@.take(i + 1).drop_last() =~= self.entries@.take(i as int));
                    assert(self.entries@.take(i + 1).last() == self.entries@[i as int]);
                }
                return Some(self.entries[i].1.clone());
            }
        }
        proof {
            lemma_eqv_entries_map_suffix(self.entries@, 0, name@);
            assert(self.entries@.take(0) =~= Seq::<(String, String)>::empty());
        }
        None
    }
}

/// Appends one character to a string.  Relies on `String::push`: the string
/// gains exactly that character at its end.
#[verifier::external_body]
fn push_char(s: &mut String, c: char)
    ensures
        final(s)@ == old(s)@ + seq![c],
{
    s.push(c);
}

/// Exec test for in-line whitespace.
fn line_space_exec(c: char) -> (r: bool)
    ensures
        r == is_line_space(c),
{
    c == ' ' || c == '\t' || c == '\r'
}

/// Scans `[start, end)` of `s` for its whitespace-separated token ranges.
#[verifier::loop_isolation(false)]
fn scan_line_tokens(s: &str, start: usize, end: usize) -> (r: Vec<(usize, usize)>)
    requires
        start <= end,
        end <= s@.len(),
    ensures
        r@.map_values(|p: (usize, usize)| s@.subrange(p.0 as int, p.1 as int)) == split_tokens(
            s@.subrange(start as int, end as int),
            SepKind::LineSpace,
        ),
        forall|k: int|
            0 <= k < r@.len() ==> start <= (#[trigger] r@[k]).0 && r@[k].0 < r@[k].1 && r@[k].1
                <= end,
{
    let ghost sep = SepKind::LineSpace;
    let ghost seg = s@.subrange(start as int, end as int);
    let ghost views = |p: (usize, usize)| s@.subrange(p.0 as int, p.1 as int);
    let mut r: Vec<(usize, usize)> = Vec::new();
    let mut i: usize = start;
    proof {
        assert(seg.skip(0) =~= seg);
        assert(r@.map_values(views) + split_tokens(seg, sep) =~= split_tokens(seg, sep));
    }
    while i < end
        invariant
            start <= i <= end,
            split_tokens(seg, sep) == r@.map_values(views) + split_tokens(
                seg.skip(i - start),
                sep,
            ),
            forall|k: int|
                0 <= k < r@.len() ==> start <= (#[trigger] r@[k]).0 && r@[k].0 < r@[k].1 && r@[k].1
                    <= end,
        decreases end - i,
    {
        let c = s.get_char(i);
        proof {
            assert(seg[i - start] == s@[i as int]);
        }
        if line_space_exec(c) {
            proof {
                assert(seg.skip(i - start).drop_first() =~= seg.skip(i + 1 - start));
            }
            i += 1;
        } else {
            let mut j: usize = i + 1;
            while j < end
                invariant
                    i < j <= end,
                    forall|k: int| i <= k < j ==> !is_line_space(#[trigger] s@[k]),
                decreases end - j,
            {
                let cj = s.get_char(j);
                if line_space_exec(cj) {
                    break ;
                }
                j += 1;
            }
            proof {
                let rest = seg.skip(i - start);
                assert forall|k: int| 0 <= k < j - i implies !sep_at(sep, #[trigger] rest[k]) by {
                    assert(rest[k] == s@[k + i]);
                }
                if j < end {
                    assert(rest[j - i] == s@[j as int]);
                }
                lemma_token_len_is(rest, sep, j - i);
                assert(rest.take(j - i) =~= s@.subrange(i as int, j as int));
                assert(rest.skip(j - i) =~= seg.skip(j - start));
            }
            let ghost prev = r@.map_values(views);
            r.push((i, j));
            proof {
                assert(r@.map_values(views) =~= prev.push(s@.subrange(i as int, j as int)));
                assert(prev + (seq![s@.subrange(i as int, j as int)] + split_tokens(
                    seg.skip(j - start),
                    sep,
                )) =~= prev.push(s@.subrange(i as int, j as int)) + split_tokens(
                    seg.skip(j - start),
                    sep,
                ));
            }
            i = j;
        }
    }
    proof {
        assert(seg.skip(end - start) =~= Seq::<char>::empty());
        assert(r@.map_values(views) + Seq::<Seq<char>>::empty() =~= r@.map_values(views));
    }
    r
}

/// Preprocesses the raw source: strips comments, normalizes whitespace,
/// drops blank lines and expands `.eqv NAME VALUE` macro directives — each
/// `.eqv` affects only the lines after it, within this one run.
#[verifier::rlimit(60)]
#[verifier::loop_isolation(false)]
pub fn preprocess(input: String) -> (out: String)
    ensures
        out@ == preprocess_spec(input@),
{
    let s = input.as_str();
    let n = s.unicode_len();
    let mut eqv = EqvTable::new();
    let mut out = String::new();
    let ghost mut emitted = Seq::<Seq<char>>::empty();
    let mut started = false;
    let mut p: usize = 0;
    proof {
        assert(input@.skip(0) =~= input@);
        assert(emitted + preprocess_lines(split_lines(input@), Map::<Seq<char>, Seq<char>>::empty())
            =~= preprocess_lines(split_lines(input@), Map::<Seq<char>, Seq<char>>::empty()));
    }
    while p < n
        invariant
            p <= n,
            n == input@.len(),
            s@ == input@,
            started == (emitted.len() > 0),
            out@ == join_nl(emitted),
            preprocess_lines(split_lines(input@), Map::<Seq<char>, Seq<char>>::empty()) == emitted
                + preprocess_lines(split_lines(input@.skip(p as int)), eqv@),
        decreases n - p,
    {
        let ghost eqvm = eqv@;
        // Find the end of the current line.
        let mut e: usize = p;
        while e < n
            invariant
                p <= e <= n,
                forall|j: int| p <= j < e ==> s@[j] != '\n',
            decreases n - e,
        {
            if s.get_char(e) == '\n' {
                break ;
            }
            e += 1;
        }
        let ghost line = input@.subrange(p as int, e as int);
        let ghost rest = input@.skip(p as int);
        let ghost rem_lines = split_lines(rest);
        proof {
            assert forall|j: int| 0 <= j < e - p implies rest[j] != '\n' by {
                assert(rest[j] == input@[j + p]);
            }
            if e < n {
                assert(rest[e - p] == input@[e as int]);
            }
            lemma_until_char_is(rest, '\n', e - p);
            assert(rest.take(e - p) =~= line);
            if e == n {
                assert(rest =~= line);
                assert(rem_lines == seq![line]);
                assert(rem_lines.drop_first() =~= Seq::<Seq<char>>::empty());
                assert(split_lines(input@.skip(n as int)) =~= Seq::<Seq<char>>::empty());
            } else {
                assert(rest.skip(e - p + 1) =~= input@.skip(e + 1));
                assert(rem_lines == seq![line] + split_lines(input@.skip(e + 1)));
                assert(rem_lines.drop_first() =~= split_lines(input@.skip(e + 1)));
            }
            assert(rem_lines[0] == line);
        }
        // Find the comment marker, if any.
        let mut cpos: usize = p;
        while cpos < e
            invariant
                p <= cpos <= e,
                forall|j: int| p <= j < cpos ==> s@[j] != '#',
            decreases e - cpos,
        {
            if s.get_char(cpos) == '#' {
                break ;
            }
            cpos += 1;
        }
        proof {
            assert forall|j: int| 0 <= j < cpos - p implies line[j] != '#' by {
                assert(line[j] == input@[j + p]);
            }
            if cpos < e {
                assert(line[cpos - p] == input@[cpos as int]);
            }
            lemma_until_char_is(line, '#', cpos - p);
            assert(cut_comment(line) =~= input@.subrange(p as int, cpos as int));
        }
        let toks = scan_line_tokens(s, p, cpos);
        let ghost tv = line_tokens(line);
        proof {
            assert(tv =~= toks@.map_values(
                |q: (usize, usize)| input@.subrange(q.0 as int, q.1 as int),
            ));
            assert(tv.len() == toks@.len());
            assert forall|k: int| 0 <= k < toks@.len() implies tv[k] == input@.subrange(
                (#[trigger] toks@[k]).0 as int,
                toks@[k].1 as int,
            ) by {}
        }
        if toks.len() == 0 {
            // A blank (or comment-only) line: dropped.
        } else {
            let first = toks[0];
            let t0 = s.substring_char(first.0, first.1);
            if str_eq(t0, ".eqv") {
                proof {
                    assert(tv[0] == t0@);
                }
                if toks.len() >= 3 {
                    let r1 = toks[1];
                    let r2 = toks[2];
                    let name = s.substring_char(r1.0, r1.1).to_owned();
                    let value = s.substring_char(r2.0, r2.1).to_owned();
                    proof {
                        assert(tv[1] == name@ && tv[2] == value@);
                    }
                    eqv.insert(name, value);
                }
            } else {
                proof {
                    assert(tv[0] == t0@);
                }
                // Re-emit the line: each token substituted through the
                // table, joined by single spaces.
                let ghost sub_tv = tv.map_values(|t: Seq<char>| subst(t, eqvm));
                let mut lstr = String::new();
                let mut k: usize = 0;
                proof {
                    assert(sub_tv.take(0) =~= Seq::<Seq<char>>::empty());
                }
                while k < toks.len()
                    invariant
                        k <= toks@.len(),
                        lstr@ == join_sp(sub_tv.take(k as int)),
                    decreases toks@.len() - k,
                {
                    if k > 0 {
                        lstr.append(" ");
                    }
                    let rk = toks[k];
                    let tk = s.substring_char(rk.0, rk.1);
                    proof {
                        assert(tv[k as int] == tk@);
                    }
                    match eqv.get(tk) {
                        Some(rep) => {
                            lstr.append(rep.as_str());
                        },
                        None => {
                            lstr.append(tk);
                        },
                    }
                    proof {
                        reveal_strlit(" ");
                        assert(" "@ =~= seq![' ']);
                        assert(sub_tv[k as int] == subst(tv[k as int], eqvm));
                        assert(sub_tv.take(k + 1).drop_last() =~= sub_tv.take(k as int));
                        assert(sub_tv.take(k + 1).last() == sub_tv[k as int]);
                        if k == 0 {
                            assert(lstr@ =~= join_sp(sub_tv.take(1)));
                        }
                    }
                    k += 1;
                }
                proof {
                    assert(sub_tv.take(toks@.len() as int) =~= sub_tv);
                }
                if started {
                    push_char(&mut out, '\n');
                }
                out.append(lstr.as_str());
                proof {
                    let prev = emitted;
                    emitted = emitted.push(join_sp(sub_tv));
                    assert(emitted.drop_last() =~= prev);
                    assert(emitted.last() == join_sp(sub_tv));
                    if prev.len() == 0 {
                        assert(out@ =~= join_nl(emitted));
                    }
                }
                started = true;
            }
        }
        proof {
            // Relate this line's handling to one unfolding of
            // `preprocess_lines` on the remaining lines.
            let tail = rem_lines.drop_first();
            if tv.len() == 0 {
                assert(preprocess_lines(rem_lines, eqvm) == preprocess_lines(tail, eqvm));
            } else if tv[0] == ".eqv"@ {
                if tv.len() >= 3 {
                    assert(preprocess_lines(rem_lines, eqvm) == preprocess_lines(
                        tail,
                        eqvm.insert(tv[1], tv[2]),
                    ));
                } else {
                    assert(preprocess_lines(rem_lines, eqvm) == preprocess_lines(tail, eqvm));
                }
            } else {
                let sub_tv = tv.map_values(|t: Seq<char>| subst(t, eqvm));
                assert(tv.map_values(|t: Seq<char>| subst(t, eqvm)) =~= sub_tv);
                assert(preprocess_lines(rem_lines, eqvm) == seq![join_sp(sub_tv)]
                    + preprocess_lines(tail, eqvm));
                assert(emitted.drop_last() + (seq![join_sp(sub_tv)] + preprocess_lines(tail, eqvm))
                    =~= emitted + preprocess_lines(tail, eqvm));
            }
        }
        if e < n {
            p = e + 1;
        } else {
            p = n;
        }
    }
    proof {
        assert(input@.skip(n as int) =~= Seq::<char>::empty());
        assert(emitted + preprocess_lines(
            split_lines(input@.skip(n as int)),
            eqv@,
        ) =~= emitted);
    }
    out
}

} // verus!
