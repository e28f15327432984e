//! The sandboxed macOS edition writes its aliases into one clearly marked
//! block inside each shell startup file. This module renders, removes and
//! replaces that block, refusing files whose markers are ambiguous, and
//! reads importable aliases from the lines outside it.

use vstd::prelude::*;
use crate::alias_entry;
use crate::shell_alias;
use crate::text;
use crate::text::{chars_of, eq_chars, join_chars, lines_chars, push_all, push_str, string_of, trim_chars};
use crate::alias_entry::{validate_alias_entry, single_quote, AliasEntry};
use crate::shell_alias::{keep_unique_names, line_id_string, parse_alias_chars, ShellAliasCandidate};

verus! {

/// The line that opens the EasyAlias block.
pub const MANAGED_BLOCK_START: &'static str = "# >>> EasyAlias managed aliases >>>";

/// The line that closes the EasyAlias block.
pub const MANAGED_BLOCK_END: &'static str = "# <<< EasyAlias managed aliases <<<";

pub open spec fn start_marker() -> Seq<char> {
    MANAGED_BLOCK_START@
}

pub open spec fn end_marker() -> Seq<char> {
    MANAGED_BLOCK_END@
}

pub open spec fn multiple_blocks_error() -> Seq<char> {
    "A shell startup file contains multiple EasyAlias blocks."@
}

pub open spec fn unmatched_end_error() -> Seq<char> {
    "A shell startup file contains an unmatched EasyAlias end marker."@
}

pub open spec fn missing_end_error() -> Seq<char> {
    "A shell startup file contains an EasyAlias block without an end marker."@
}

/// The state after reading the first `k` lines: the lines kept outside the
/// block, whether a block is open, and whether one was seen; or the error.
pub open spec fn block_scan(ls: Seq<Seq<char>>, k: int) -> Result<
    (Seq<Seq<char>>, bool, bool),
    Seq<char>,
>
    decreases k,
{
    if k <= 0 {
        Ok((Seq::empty(), false, false))
    } else {
        match block_scan(ls, k - 1) {
            Err(e) => Err(e),
            Ok((out, inside, seen)) => {
                let t = text::trim(ls[k - 1]);
                if t == start_marker() {
                    if inside || seen {
                        Err(multiple_blocks_error())
                    } else {
                        Ok((out, true, true))
                    }
                } else if t == end_marker() {
                    if !inside {
                        Err(unmatched_end_error())
                    } else {
                        Ok((out, false, seen))
                    }
                } else if !inside {
                    Ok((out.push(ls[k - 1]), inside, seen))
                } else {
                    Ok((out, inside, seen))
                }
            },
        }
    }
}

/// The startup file without the EasyAlias block, or why the block is ambiguous.
pub open spec fn without_block(content: Seq<char>) -> Result<Seq<char>, Seq<char>> {
    let ls = text::lines(content);
    match block_scan(ls, ls.len() as int) {
        Err(e) => Err(e),
        Ok((out, inside, seen)) => if inside {
            Err(missing_end_error())
        } else {
            let r = text::join(out, "\n"@);
            if content.len() > 0 && content.last() == '\n' && r.len() > 0 {
                Ok(r + "\n"@)
            } else {
                Ok(r)
            }
        },
    }
}

proof fn lemma_block_scan_error_stable(ls: Seq<Seq<char>>, n: int, m: int)
    requires
        0 <= n <= m,
        block_scan(ls, n) is Err,
    ensures
        block_scan(ls, m) == block_scan(ls, n),
    decreases m - n,
{
    if n < m {
        lemma_block_scan_error_stable(ls, n, m - 1);
    }
}

/// Removes the previous EasyAlias block while rejecting malformed or
/// duplicated markers; refusing ambiguous input prevents shell-file damage.
pub fn without_managed_block(content: &str) -> (r: Result<String, String>)
    ensures
        match r {
            Ok(s) => without_block(content@) == Ok::<Seq<char>, Seq<char>>(s@),
            Err(e) => without_block(content@) == Err::<Seq<char>, Seq<char>>(e@),
        },
{
    let s = chars_of(content);
    let ls = lines_chars(&s);
    let ghost lv = ls@.map_values(|l: Vec<char>| l@);
    assert(lv == text::lines(content@));
    let start = chars_of(MANAGED_BLOCK_START);
    let end = chars_of(MANAGED_BLOCK_END);
    let mut out: Vec<Vec<char>> = Vec::new();
    let mut inside = false;
    let mut seen = false;
    let mut i: usize = 0;
    assert(out@.map_values(|l: Vec<char>| l@) =~= Seq::<Seq<char>>::empty());
    while i < ls.len()
        invariant
            i <= ls.len(),
            lv == ls@.map_values(|l: Vec<char>| l@),
            lv == text::lines(content@),
            s@ == content@,
            start@ == start_marker(),
            end@ == end_marker(),
            block_scan(lv, i as int) == Ok::<(Seq<Seq<char>>, bool, bool), Seq<char>>(
                (out@.map_values(|l: Vec<char>| l@), inside, seen),
            ),
        decreases ls.len() - i,
    {
        let t = trim_chars(&ls[i]);
        assert(lv[i as int] == ls@[i as int]@);
        if eq_chars(&t, &start) {
            if inside || seen {
                proof {
                    lemma_block_scan_error_stable(lv, i + 1, lv.len() as int);
                }
                return Err(string_of(&chars_of(
                    "A shell startup file contains multiple EasyAlias blocks.",
                )));
            }
            inside = true;
            seen = true;
        } else if eq_chars(&t, &end) {
            if !inside {
                proof {
                    lemma_block_scan_error_stable(lv, i + 1, lv.len() as int);
                }
                return Err(string_of(&chars_of(
                    "A shell startup file contains an unmatched EasyAlias end marker.",
                )));
            }
            inside = false;
        } else if !inside {
            out.push(ls[i].clone());
            assert(out@.map_values(|l: Vec<char>| l@) =~= block_scan(lv, i as int)->Ok_0.0.push(
                lv[i as int],
            ));
        }
        i = i + 1;
    }
    if inside {
        return Err(string_of(&chars_of(
            "A shell startup file contains an EasyAlias block without an end marker.",
        )));
    }
    let nl: Vec<char> = vec!['\n'];
    let mut r = join_chars(&out, &nl);
    assert(nl@ =~= "\n"@) by {
        reveal_strlit("\n");
    }
    let ghost joined = r@;
    if s.len() > 0 && s[s.len() - 1] == '\n' && r.len() > 0 {
        r.push('\n');
        proof {
            reveal_strlit("\n");
            assert(r@ =~= joined + "\n"@);
        }
    }
    Ok(string_of(&r))
}

/// The lines of the EasyAlias block for valid entries.
pub open spec fn block_alias_lines(s: Seq<AliasEntry>) -> Seq<char>
    decreases s.len(),
{
    if s.len() == 0 {
        Seq::empty()
    } else {
        block_alias_lines(s.drop_last()) + alias_entry::alias_line(s.last().name@, s.last().command_preview@)
            + "\n"@
    }
}

/// The EasyAlias block: start marker, a notice, one line per alias, end marker.
pub open spec fn managed_block(s: Seq<AliasEntry>) -> Seq<char> {
    start_marker() + "\n# Managed by EasyAlias. Edit these aliases in the app.\n"@
        + block_alias_lines(s) + end_marker()
}

/// Renders the EasyAlias block; every entry is validated first.
pub fn render_managed_block(aliases: &[AliasEntry]) -> (r: Result<String, String>)
    ensures
        match r {
            Ok(text) => alias_entry::first_entry_error(aliases@) is None && text@ == managed_block(aliases@),
            Err(e) => alias_entry::first_entry_error(aliases@) == Some(e@),
        },
{
    let mut v: Vec<char> = Vec::new();
    push_str(&mut v, MANAGED_BLOCK_START);
    push_str(&mut v, "\n# Managed by EasyAlias. Edit these aliases in the app.\n");
    let ghost head = start_marker() + "\n# Managed by EasyAlias. Edit these aliases in the app.\n"@;
    let mut i: usize = 0;
    while i < aliases.len()
        invariant
            i <= aliases@.len(),
            alias_entry::first_entry_error(aliases@.take(i as int)) is None,
            v@ == head + block_alias_lines(aliases@.take(i as int)),
        decreases aliases@.len() - i,
    {
        assert(aliases@.take(i + 1).drop_last() =~= aliases@.take(i as int));
        assert(aliases@.take(i + 1).last() == aliases@[i as int]);
        match validate_alias_entry(&aliases[i]) {
            Err(e) => {
                proof {
                    crate::alias_entry::lemma_first_entry_error_prefix(aliases@, i as int + 1);
                }
                return Err(e);
            },
            Ok(()) => {},
        }
        push_str(&mut v, "alias ");
        push_str(&mut v, aliases[i].name.as_str());
        push_str(&mut v, "=");
        let q = single_quote(aliases[i].command_preview.as_str());
        push_str(&mut v, q.as_str());
        push_str(&mut v, "\n");
        assert(v@ =~= head + block_alias_lines(aliases@.take(i + 1)));
        i = i + 1;
    }
    assert(aliases@.take(aliases@.len() as int) =~= aliases@);
    push_str(&mut v, MANAGED_BLOCK_END);
    Ok(string_of(&v))
}

/// The text without trailing newlines (`trim_end_matches('\n')`).
pub open spec fn trim_newlines(s: Seq<char>) -> Seq<char>
    decreases s.len(),
{
    if s.len() > 0 && s.last() == '\n' {
        trim_newlines(s.drop_last())
    } else {
        s
    }
}

/// The startup file with its EasyAlias block replaced by one for `s`,
/// written after the rest of the file and a blank line.
pub open spec fn with_block(base: Seq<char>, s: Seq<AliasEntry>) -> Seq<char> {
    let b = trim_newlines(base);
    if b.len() > 0 {
        b + "\n\n"@ + managed_block(s) + "\n"@
    } else {
        managed_block(s) + "\n"@
    }
}

/// Replaces the EasyAlias block of a startup file, keeping every other line.
pub fn update_managed_block(content: &str, aliases: &[AliasEntry]) -> (r: Result<String, String>)
    ensures
        match without_block(content@) {
            Err(e) => r is Err && r->Err_0@ == e,
            Ok(base) => match alias_entry::first_entry_error(aliases@) {
                Some(e) => r is Err && r->Err_0@ == e,
                None => r is Ok && r->Ok_0@ == with_block(base, aliases@),
            },
        },
{
    let base = match without_managed_block(content) {
        Ok(b) => b,
        Err(e) => {
            return Err(e);
        },
    };
    let block = match render_managed_block(aliases) {
        Ok(b) => b,
        Err(e) => {
            return Err(e);
        },
    };
    let mut v = chars_of(base.as_str());
    let ghost bv = v@;
    assert(trim_newlines(bv) == trim_newlines(v@.take(v.len() as int))) by {
        assert(v@.take(v.len() as int) =~= bv);
    }
    while v.len() > 0 && v[v.len() - 1] == '\n'
        invariant
            trim_newlines(bv) == trim_newlines(v@),
        decreases v.len(),
    {
        let ghost before = v@;
        v.pop();
        assert(v@ =~= before.drop_last());
    }
    if v.len() > 0 {
        push_str(&mut v, "\n\n");
    }
    push_str(&mut v, block.as_str());
    push_str(&mut v, "\n");
    Ok(string_of(&v))
}

/// Whether some line, trimmed, equals `m`.
pub open spec fn has_marker_line(ls: Seq<Seq<char>>, m: Seq<char>) -> bool {
    exists|i: int| 0 <= i < ls.len() && text::trim(ls[i]) == m
}

/// Whether a startup file holds one well-formed EasyAlias block.
pub fn managed_block_present(content: &str) -> (r: bool)
    ensures
        r == (has_marker_line(text::lines(content@), start_marker()) && has_marker_line(
            text::lines(content@),
            end_marker(),
        ) && without_block(content@) is Ok),
{
    let s = chars_of(content);
    let ls = lines_chars(&s);
    let ghost lv = ls@.map_values(|l: Vec<char>| l@);
    let start = chars_of(MANAGED_BLOCK_START);
    let end = chars_of(MANAGED_BLOCK_END);
    let mut start_seen = false;
    let mut end_seen = false;
    let mut i: usize = 0;
    while i < ls.len()
        invariant
            i <= ls.len(),
            lv == ls@.map_values(|l: Vec<char>| l@),
            lv == text::lines(content@),
            start@ == start_marker(),
            end@ == end_marker(),
            start_seen == exists|j: int| 0 <= j < i && text::trim(lv[j]) == start_marker(),
            end_seen == exists|j: int| 0 <= j < i && text::trim(lv[j]) == end_marker(),
        decreases ls.len() - i,
    {
        let t = trim_chars(&ls[i]);
        assert(lv[i as int] == ls@[i as int]@);
        if eq_chars(&t, &start) {
            start_seen = true;
        }
        if eq_chars(&t, &end) {
            end_seen = true;
        }
        i = i + 1;
    }
    start_seen && end_seen && without_managed_block(content).is_ok()
}

/// The marker lines among the first `k` lines, trimmed, in order.
pub open spec fn marker_lines(ls: Seq<Seq<char>>, k: int) -> Seq<Seq<char>>
    decreases k,
{
    if k <= 0 {
        Seq::empty()
    } else {
        let prev = marker_lines(ls, k - 1);
        let t = text::trim(ls[k - 1]);
        if t == start_marker() || t == end_marker() {
            prev.push(t)
        } else {
            prev
        }
    }
}

/// The markers of a well-formed file: none, or one block.
pub open spec fn well_formed_markers(m: Seq<Seq<char>>) -> bool {
    m.len() == 0 || m == seq![start_marker(), end_marker()]
}

proof fn lemma_markers_differ()
    ensures
        start_marker() != end_marker(),
{
    reveal_strlit("# >>> EasyAlias managed aliases >>>");
    reveal_strlit("# <<< EasyAlias managed aliases <<<");
    assert(start_marker()[2] != end_marker()[2]);
}

/// The scan's state follows from the markers read so far.
/// Whether a block is open and whether one was seen after the first `k`
/// lines, unless the scan refused them.
pub open spec fn scan_flags(ls: Seq<Seq<char>>, k: int) -> Option<(bool, bool)> {
    match block_scan(ls, k) {
        Ok((_, inside, seen)) => Some((inside, seen)),
        Err(_) => None,
    }
}

/// The scan's state follows from the markers read so far.
proof fn lemma_scan_by_markers(ls: Seq<Seq<char>>, k: int)
    requires
        0 <= k <= ls.len(),
    ensures
        marker_lines(ls, k).len() == 0 ==> scan_flags(ls, k) == Some((false, false)),
        marker_lines(ls, k) == seq![start_marker()] ==> scan_flags(ls, k) == Some((true, true)),
        marker_lines(ls, k) == seq![start_marker(), end_marker()] ==> scan_flags(ls, k) == Some(
            (false, true),
        ),
        !well_formed_markers(marker_lines(ls, k)) && marker_lines(ls, k) != seq![start_marker()]
            ==> scan_flags(ls, k) is None,
    decreases k,
{
    lemma_markers_differ();
    let sm = start_marker();
    let em = end_marker();
    assert(seq![sm].len() == 1 && seq![sm, em].len() == 2);
    if k > 0 {
        lemma_scan_by_markers(ls, k - 1);
        let p = marker_lines(ls, k - 1);
        let m = marker_lines(ls, k);
        let t = text::trim(ls[k - 1]);
        let f = scan_flags(ls, k - 1);
        assert(seq![sm][0] == sm);
        assert(seq![sm, em][0] == sm && seq![sm, em][1] == em);
        if t == sm || t == em {
            assert(m == p.push(t));
            if p.len() == 0 {
                assert(f == Some((false, false)));
                assert(p.push(t) =~= seq![t]);
                if t == sm {
                    assert(scan_flags(ls, k) == Some((true, true)));
                } else {
                    assert(scan_flags(ls, k) is None);
                    assert(seq![em][0] != seq![sm][0]);
                    assert(m != seq![sm]);
                }
            } else if p == seq![sm] {
                assert(f == Some((true, true)));
                assert(p.push(t) =~= seq![sm, t]);
                if t == sm {
                    assert(scan_flags(ls, k) is None);
                    assert(m[1] != seq![sm, em][1]);
                } else {
                    assert(scan_flags(ls, k) == Some((false, true)));
                }
            } else if p == seq![sm, em] {
                assert(f == Some((false, true)));
                assert(scan_flags(ls, k) is None);
                assert(p.push(t).len() == 3);
            } else {
                assert(f is None);
                assert(scan_flags(ls, k) is None);
                if m.len() == 0 || m == seq![sm] || m == seq![sm, em] {
                    assert(m.drop_last() =~= p);
                    if m == seq![sm] {
                        assert(p =~= Seq::<Seq<char>>::empty());
                    }
                    if m == seq![sm, em] {
                        assert(p =~= seq![sm]);
                    }
                }
            }
        } else {
            assert(m == p);
            if f is Some {
                assert(scan_flags(ls, k) == f);
            } else {
                assert(scan_flags(ls, k) is None);
            }
        }
    }
}

/// A startup file is refused exactly when its marker lines are neither
/// absent nor one start marker followed by one end marker: a second start,
/// an end without a start, or a start without an end.
pub proof fn lemma_refused_by_markers(content: Seq<char>)
    ensures
        without_block(content) is Err <==> !well_formed_markers(
            marker_lines(text::lines(content), text::lines(content).len() as int),
        ),
{
    let ls = text::lines(content);
    lemma_scan_by_markers(ls, ls.len() as int);
    lemma_markers_differ();
    let m = marker_lines(ls, ls.len() as int);
    if m == seq![start_marker()] {
        assert(m.len() == 1);
        assert(m != seq![start_marker(), end_marker()]);
        assert(!well_formed_markers(m));
    }
}

/// Whether a trimmed line is the marker `mk` among the first `k` lines.
proof fn lemma_marker_present(ls: Seq<Seq<char>>, k: int, mk: Seq<char>)
    requires
        0 <= k <= ls.len(),
        mk == start_marker() || mk == end_marker(),
    ensures
        marker_lines(ls, k).contains(mk) <==> exists|j: int| 0 <= j < k && text::trim(ls[j]) == mk,
    decreases k,
{
    if k > 0 {
        lemma_marker_present(ls, k - 1, mk);
        let p = marker_lines(ls, k - 1);
        let t = text::trim(ls[k - 1]);
        if t == start_marker() || t == end_marker() {
            assert(marker_lines(ls, k) == p.push(t));
            if p.push(t).contains(mk) && !p.contains(mk) {
                let i = choose|i: int| 0 <= i < p.push(t).len() && p.push(t)[i] == mk;
                assert(i == p.len());
            }
            if p.contains(mk) {
                let i = choose|i: int| 0 <= i < p.len() && p[i] == mk;
                assert(p.push(t)[i] == mk);
            }
            if t == mk {
                assert(p.push(t)[p.len() as int] == mk);
            }
        }
    }
}

/// A file holds an EasyAlias block exactly when its marker lines are one
/// start marker followed by one end marker.
pub proof fn lemma_present_by_markers(content: Seq<char>)
    ensures
        (has_marker_line(text::lines(content), start_marker()) && has_marker_line(
            text::lines(content),
            end_marker(),
        ) && without_block(content) is Ok) <==> marker_lines(
            text::lines(content),
            text::lines(content).len() as int,
        ) == seq![start_marker(), end_marker()],
{
    let ls = text::lines(content);
    let n = ls.len() as int;
    lemma_refused_by_markers(content);
    lemma_marker_present(ls, n, start_marker());
    lemma_marker_present(ls, n, end_marker());
    let m = marker_lines(ls, n);
    if m == seq![start_marker(), end_marker()] {
        assert(m[0] == start_marker() && m[1] == end_marker());
        assert(m.contains(start_marker()) && m.contains(end_marker()));
    }
    if m.len() == 0 {
        assert(!m.contains(start_marker()));
    }
}

/// Lines without line breaks or carriage returns.
pub open spec fn clean_lines(ls: Seq<Seq<char>>) -> bool {
    forall|i: int, j: int|
        0 <= i < ls.len() && 0 <= j < ls[i].len() ==> ls[i][j] != '\n' && ls[i][j] != '\r'
}

/// Lines none of which is a marker line.
pub open spec fn no_marker_lines(ls: Seq<Seq<char>>) -> bool {
    forall|i: int|
        0 <= i < ls.len() ==> text::trim(#[trigger] ls[i]) != start_marker() && text::trim(ls[i])
            != end_marker()
}

proof fn lemma_clean_pieces(s: Seq<char>)
    requires
        forall|k: int| 0 <= k < s.len() ==> s[k] != '\r',
    ensures
        clean_lines(text::split_on(s, '\n')),
        text::split_on(s, '\n').map_values(|l: Seq<char>| text::strip_cr(l)) == text::split_on(s, '\n'),
{
    text::lemma_pieces_avoid(s, '\n', '\n');
    text::lemma_pieces_avoid(s, '\n', '\r');
    let p = text::split_on(s, '\n');
    assert forall|i: int| 0 <= i < p.len() implies text::strip_cr(p[i]) == p[i] by {
        if p[i].len() > 0 {
            assert(p[i][p[i].len() - 1] != '\r');
        }
    }
    assert(p.map_values(|l: Seq<char>| text::strip_cr(l)) =~= p);
}

/// The lines of a text without carriage returns hold none.
proof fn lemma_lines_clean(c: Seq<char>)
    requires
        forall|k: int| 0 <= k < c.len() ==> c[k] != '\r',
    ensures
        clean_lines(text::lines(c)),
{
    if c.len() > 0 {
        if c.last() == '\n' {
            lemma_clean_pieces(c.drop_last());
        } else {
            lemma_clean_pieces(c);
            text::lemma_split_on_nonempty(c, '\n');
            let p = text::split_on(c, '\n');
            let ls = text::lines(c);
            assert forall|i: int, j: int| 0 <= i < ls.len() && 0 <= j < ls[i].len() implies ls[i][j]
                != '\n' && ls[i][j] != '\r' by {
                assert(p.take(p.len() - 1).map_values(|l: Seq<char>| text::strip_cr(l)) =~= p.take(
                    p.len() - 1,
                ));
                assert(ls[i] == p[i]);
            }
        }
    }
}

/// The lines kept outside the block are lines of the file: clean when the
/// file's lines are, and none of them a marker.
proof fn lemma_scan_output(ls: Seq<Seq<char>>, k: int)
    requires
        0 <= k <= ls.len(),
        clean_lines(ls),
    ensures
        block_scan(ls, k) matches Ok((out, _, _)) ==> (clean_lines(out) && no_marker_lines(out)),
    decreases k,
{
    if k > 0 {
        lemma_scan_output(ls, k - 1);
        match block_scan(ls, k - 1) {
            Ok((out, inside, seen)) => {
                let t = text::trim(ls[k - 1]);
                if t != start_marker() && t != end_marker() && !inside {
                    let o2 = out.push(ls[k - 1]);
                    assert forall|i: int, j: int| 0 <= i < o2.len() && 0 <= j < o2[i].len() implies o2[i][j]
                        != '\n' && o2[i][j] != '\r' by {
                        if i < out.len() {
                            assert(o2[i] == out[i]);
                        }
                    }
                    assert forall|i: int| 0 <= i < o2.len() implies text::trim(#[trigger] o2[i])
                        != start_marker() && text::trim(o2[i]) != end_marker() by {
                        if i < out.len() {
                            assert(o2[i] == out[i]);
                        }
                    }
                }
            },
            Err(_) => {},
        }
    }
}

/// Lines without markers pass the scan unchanged.
proof fn lemma_scan_plain(ls: Seq<Seq<char>>, k: int)
    requires
        0 <= k <= ls.len(),
        no_marker_lines(ls),
    ensures
        block_scan(ls, k) == Ok::<(Seq<Seq<char>>, bool, bool), Seq<char>>((ls.take(k), false, false)),
    decreases k,
{
    if k > 0 {
        lemma_scan_plain(ls, k - 1);
        assert(text::trim(ls[k - 1]) != start_marker());
        assert(ls.take(k - 1).push(ls[k - 1]) =~= ls.take(k));
    } else {
        assert(ls.take(0) =~= Seq::<Seq<char>>::empty());
    }
}

/// The lines of clean lines joined with line breaks.
proof fn lemma_lines_of_join(out: Seq<Seq<char>>)
    requires
        clean_lines(out),
    ensures
        out.len() > 0 ==> text::lines(text::join(out, "\n"@) + "\n"@) == out,
        text::join(out, "\n"@).len() > 0 && text::join(out, "\n"@).last() != '\n' ==> text::lines(
            text::join(out, "\n"@),
        ) == out,
        text::join(out, "\n"@).len() > 0 && text::join(out, "\n"@).last() == '\n' ==> {
            &&& out.len() >= 2
            &&& text::lines(text::join(out, "\n"@)) == out.drop_last()
            &&& text::join(out, "\n"@) == text::join(out.drop_last(), "\n"@) + "\n"@
        },
{
    reveal_strlit("\n");
    assert("\n"@ =~= seq!['\n']);
    let j = text::join(out, "\n"@);
    assert forall|i: int, k: int| 0 <= i < out.len() && 0 <= k < out[i].len() implies out[i][k]
        != '\n' by {}
    if out.len() > 0 {
        text::lemma_split_join(out, '\n');
        assert((j + "\n"@).drop_last() =~= j);
        assert(out.map_values(|l: Seq<char>| text::strip_cr(l)) =~= out) by {
            assert forall|i: int| 0 <= i < out.len() implies text::strip_cr(out[i]) == out[i] by {
                if out[i].len() > 0 {
                    assert(out[i][out[i].len() - 1] != '\r');
                }
            }
        }
        if j.len() > 0 && j.last() != '\n' {
            let p = text::split_on(j, '\n');
            assert(p == out);
            assert(p.take(p.len() - 1).map_values(|l: Seq<char>| text::strip_cr(l)).push(p.last()) =~= out)
                by {
                assert forall|i: int| 0 <= i < out.len() - 1 implies text::strip_cr(out[i]) == out[i] by {
                    if out[i].len() > 0 {
                        assert(out[i][out[i].len() - 1] != '\r');
                    }
                }
            }
        }
        if j.len() > 0 && j.last() == '\n' {
            text::lemma_join_ending(out, '\n');
            let d = out.drop_last();
            assert(j.drop_last() =~= text::join(d, "\n"@));
            assert(clean_lines(d)) by {
                assert forall|i: int, k: int| 0 <= i < d.len() && 0 <= k < d[i].len() implies d[i][k]
                    != '\n' && d[i][k] != '\r' by {
                    assert(d[i] == out[i]);
                }
            }
            text::lemma_split_join(d, '\n');
            assert(d.map_values(|l: Seq<char>| text::strip_cr(l)) =~= d) by {
                assert forall|i: int| 0 <= i < d.len() implies text::strip_cr(d[i]) == d[i] by {
                    assert(d[i] == out[i]);
                    if d[i].len() > 0 {
                        assert(d[i][d[i].len() - 1] != '\r');
                    }
                }
            }
        }
    }
}

/// Removing the block twice removes nothing more: for a file without
/// carriage returns, the text without the block has no block, and removing
/// again gives it back. The one exception is a result of a lone line
/// break, left by a file whose only lines outside the block are two empty
/// ones and that does not end with a line break.
pub proof fn lemma_without_block_idempotent(c: Seq<char>)
    requires
        forall|k: int| 0 <= k < c.len() ==> c[k] != '\r',
        without_block(c) is Ok,
        without_block(c)->Ok_0 != "\n"@,
    ensures
        without_block(without_block(c)->Ok_0) == without_block(c),
        no_marker_lines(text::lines(without_block(c)->Ok_0)),
{
    reveal_strlit("\n");
    let ls = text::lines(c);
    let r = without_block(c)->Ok_0;
    lemma_lines_clean(c);
    lemma_scan_output(ls, ls.len() as int);
    let out = block_scan(ls, ls.len() as int)->Ok_0.0;
    assert(clean_lines(out) && no_marker_lines(out));
    let r0 = text::join(out, "\n"@);
    lemma_lines_of_join(out);
    if r0.len() == 0 {
        assert(r == r0);
        assert(text::lines(r) =~= Seq::<Seq<char>>::empty());
        assert(block_scan(text::lines(r), 0) == Ok::<(Seq<Seq<char>>, bool, bool), Seq<char>>(
            (Seq::empty(), false, false),
        ));
        assert(text::join(Seq::<Seq<char>>::empty(), "\n"@) =~= Seq::<char>::empty());
        assert(no_marker_lines(text::lines(r)));
    } else if c.len() > 0 && c.last() == '\n' {
        assert(r == r0 + "\n"@);
        assert(out.len() > 0);
        let l2 = text::lines(r);
        assert(l2 == out);
        lemma_scan_plain(out, out.len() as int);
        assert(out.take(out.len() as int) =~= out);
        assert(r.last() == '\n');
    } else if r0.last() != '\n' {
        assert(r == r0);
        lemma_scan_plain(out, out.len() as int);
        assert(out.take(out.len() as int) =~= out);
    } else {
        assert(r == r0);
        let d = out.drop_last();
        assert(no_marker_lines(d)) by {
            assert forall|i: int| 0 <= i < d.len() implies text::trim(#[trigger] d[i]) != start_marker()
                && text::trim(d[i]) != end_marker() by {
                assert(d[i] == out[i]);
            }
        }
        lemma_scan_plain(d, d.len() as int);
        assert(d.take(d.len() as int) =~= d);
        let jd = text::join(d, "\n"@);
        assert(r0 == jd + "\n"@);
        if jd.len() == 0 {
            assert(r0 =~= "\n"@);
        }
        assert(r.last() == '\n');
        assert(text::lines(r) == d);
    }
}

/// What the rendered block holds between its two marker lines: the notice
/// and one line per alias, without the final line break.
pub open spec fn block_body(a: Seq<AliasEntry>) -> Seq<char> {
    ("# Managed by EasyAlias. Edit these aliases in the app.\n"@ + block_alias_lines(a)).drop_last()
}

proof fn lemma_markers_plain()
    ensures
        text::trim(start_marker()) == start_marker(),
        text::trim(end_marker()) == end_marker(),
        start_marker().len() > 0,
        end_marker().len() > 0,
        forall|i: int| 0 <= i < start_marker().len() ==> start_marker()[i] != '\n' && start_marker()[i] != '\r',
        forall|i: int| 0 <= i < end_marker().len() ==> end_marker()[i] != '\n' && end_marker()[i] != '\r',
{
    reveal_strlit("# >>> EasyAlias managed aliases >>>");
    reveal_strlit("# <<< EasyAlias managed aliases <<<");
    let sm = start_marker();
    let em = end_marker();
    assert(!text::is_ws(sm[0]) && !text::is_ws(sm.last()));
    assert(!text::is_ws(em[0]) && !text::is_ws(em.last()));
    assert(text::trim_start(sm) == sm);
    assert(text::trim_end(sm) == sm);
    assert(text::trim_start(em) == em);
    assert(text::trim_end(em) == em);
}

proof fn lemma_body_split(a: Seq<AliasEntry>)
    ensures
        managed_block(a) == start_marker() + seq!['\n'] + block_body(a) + seq!['\n'] + end_marker(),
{
    reveal_strlit("\n# Managed by EasyAlias. Edit these aliases in the app.\n");
    reveal_strlit("# Managed by EasyAlias. Edit these aliases in the app.\n");
    reveal_strlit("\n");
    let h = "# Managed by EasyAlias. Edit these aliases in the app.\n"@;
    let l = block_alias_lines(a);
    let q = h + l;
    if a.len() > 0 {
        assert(l.last() == '\n');
    }
    assert(q.last() == '\n');
    assert(q =~= q.drop_last() + seq!['\n']);
    assert("\n# Managed by EasyAlias. Edit these aliases in the app.\n"@ =~= seq!['\n'] + h);
}

/// The scan over plain lines, a start marker, unmarked lines and an end
/// marker keeps the plain lines and closes the block.
proof fn lemma_scan_shape(p: Seq<Seq<char>>, inner: Seq<Seq<char>>, k: int)
    requires
        no_marker_lines(p),
        no_marker_lines(inner),
        0 <= k <= p.len() + inner.len() + 2,
    ensures
        ({
            let ls = p + seq![start_marker()] + inner + seq![end_marker()];
            &&& k <= p.len() ==> block_scan(ls, k) == Ok::<(Seq<Seq<char>>, bool, bool), Seq<char>>(
                (p.take(k), false, false),
            )
            &&& p.len() < k < p.len() + inner.len() + 2 ==> block_scan(ls, k) == Ok::<
                (Seq<Seq<char>>, bool, bool),
                Seq<char>,
            >((p, true, true))
            &&& k == p.len() + inner.len() + 2 ==> block_scan(ls, k) == Ok::<
                (Seq<Seq<char>>, bool, bool),
                Seq<char>,
            >((p, false, true))
        }),
    decreases k,
{
    lemma_markers_plain();
    lemma_markers_differ();
    let ls = p + seq![start_marker()] + inner + seq![end_marker()];
    if k > 0 {
        lemma_scan_shape(p, inner, k - 1);
        if k <= p.len() {
            assert(ls[k - 1] == p[k - 1]);
            assert(p.take(k - 1).push(p[k - 1]) =~= p.take(k));
        } else if k == p.len() + 1 {
            assert(ls[k - 1] == start_marker());
            assert(p.take(p.len() as int) =~= p);
        } else if k < p.len() + inner.len() + 2 {
            assert(ls[k - 1] == inner[k - 2 - p.len()]);
        } else {
            assert(ls[k - 1] == end_marker());
        }
    } else {
        assert(p.take(0) =~= Seq::<Seq<char>>::empty());
    }
}

proof fn lemma_scan_around_block(
    p: Seq<Seq<char>>,
    x: Seq<char>,
    inner: Seq<Seq<char>>,
    y: Seq<char>,
    q: Seq<Seq<char>>,
    k: int,
)
    requires
        no_marker_lines(p),
        no_marker_lines(inner),
        no_marker_lines(q),
        text::trim(x) == start_marker(),
        text::trim(y) == end_marker(),
        0 <= k <= p.len() + inner.len() + 2 + q.len(),
    ensures
        ({
            let ls = p + seq![x] + inner + seq![y] + q;
            let n = p.len() + inner.len() + 2;
            &&& k <= p.len() ==> block_scan(ls, k) == Ok::<(Seq<Seq<char>>, bool, bool), Seq<char>>(
                (p.take(k), false, false),
            )
            &&& p.len() < k < n ==> block_scan(ls, k) == Ok::<(Seq<Seq<char>>, bool, bool), Seq<char>>(
                (p, true, true),
            )
            &&& n <= k ==> block_scan(ls, k) == Ok::<(Seq<Seq<char>>, bool, bool), Seq<char>>(
                (p + q.take(k - n), false, true),
            )
        }),
    decreases k,
{
    lemma_markers_differ();
    let ls = p + seq![x] + inner + seq![y] + q;
    let n = p.len() + inner.len() + 2;
    if k > 0 {
        lemma_scan_around_block(p, x, inner, y, q, k - 1);
        if k <= p.len() {
            assert(ls[k - 1] == p[k - 1]);
            assert(p.take(k - 1).push(p[k - 1]) =~= p.take(k));
        } else if k == p.len() + 1 {
            assert(ls[k - 1] == x);
            assert(p.take(p.len() as int) =~= p);
        } else if k < n {
            assert(ls[k - 1] == inner[k - 2 - p.len()]);
        } else if k == n {
            assert(ls[k - 1] == y);
            assert(p + q.take(0) =~= p);
        } else {
            assert(ls[k - 1] == q[k - 1 - n]);
            assert((p + q.take(k - 1 - n)).push(q[k - 1 - n]) =~= p + q.take(k - n));
        }
    } else {
        assert(p.take(0) =~= Seq::<Seq<char>>::empty());
    }
}

/// Removing the block keeps the lines before its start marker line and
/// after its end marker line, in order, and drops those from the start
/// marker line through the end marker line.
pub proof fn lemma_block_lines_removed(
    p: Seq<Seq<char>>,
    x: Seq<char>,
    inner: Seq<Seq<char>>,
    y: Seq<char>,
    q: Seq<Seq<char>>,
)
    requires
        no_marker_lines(p),
        no_marker_lines(inner),
        no_marker_lines(q),
        text::trim(x) == start_marker(),
        text::trim(y) == end_marker(),
    ensures
        ({
            let ls = p + seq![x] + inner + seq![y] + q;
            block_scan(ls, ls.len() as int) == Ok::<(Seq<Seq<char>>, bool, bool), Seq<char>>(
                (p + q, false, true),
            )
        }),
{
    let ls = p + seq![x] + inner + seq![y] + q;
    lemma_scan_around_block(p, x, inner, y, q, ls.len() as int);
    assert(q.take(q.len() as int) =~= q);
}

proof fn lemma_trim_newlines_plain(s: Seq<char>)
    ensures
        text::trim(s).len() >= 0,
        trim_newlines(s).len() == 0 || trim_newlines(s).last() != '\n',
        trim_newlines(trim_newlines(s)) == trim_newlines(s),
        forall|i: int| 0 <= i < trim_newlines(s).len() ==> trim_newlines(s)[i] == s[i],
        trim_newlines(s).len() <= s.len(),
    decreases s.len(),
{
    if s.len() > 0 && s.last() == '\n' {
        lemma_trim_newlines_plain(s.drop_last());
        assert forall|i: int| 0 <= i < trim_newlines(s).len() implies trim_newlines(s)[i] == s[i] by {
            assert(s.drop_last()[i] == s[i]);
        }
    }
}

/// The lines between a block's markers, as `str::lines` reads them.
pub open spec fn body_lines(a: Seq<AliasEntry>) -> Seq<Seq<char>> {
    text::split_on(block_body(a), '\n').map_values(|l: Seq<char>| text::strip_cr(l))
}

proof fn lemma_block_pieces(a: Seq<AliasEntry>)
    ensures
        text::split_on(managed_block(a), '\n').map_values(|l: Seq<char>| text::strip_cr(l)) == seq![
            start_marker(),
        ] + body_lines(a) + seq![end_marker()],
{
    lemma_markers_plain();
    lemma_body_split(a);
    let sm = start_marker();
    let em = end_marker();
    let body = block_body(a);
    let mb = managed_block(a);
    text::lemma_split_whole(sm, '\n');
    text::lemma_split_whole(em, '\n');
    text::lemma_split_append(sm, body + seq!['\n'] + em, '\n');
    text::lemma_split_append(body, em, '\n');
    assert(mb =~= sm + seq!['\n'] + (body + seq!['\n'] + em));
    let bs = text::split_on(mb, '\n');
    assert(bs =~= seq![sm] + (text::split_on(body, '\n') + seq![em]));
    assert(text::strip_cr(sm) == sm) by {
        assert(sm[sm.len() - 1] != '\r');
    }
    assert(text::strip_cr(em) == em) by {
        assert(em[em.len() - 1] != '\r');
    }
    assert(bs.map_values(|l: Seq<char>| text::strip_cr(l)) =~= seq![sm] + body_lines(a) + seq![em]);
}

/// The lines of a text followed by a blank line and the block.
proof fn lemma_lines_with_block(tb: Seq<char>, a: Seq<AliasEntry>)
    requires
        tb.len() > 0,
        forall|k: int| 0 <= k < tb.len() ==> tb[k] != '\r',
    ensures
        text::lines(tb + "\n\n"@ + managed_block(a) + "\n"@) == text::split_on(tb, '\n') + seq![
            Seq::<char>::empty(),
        ] + seq![start_marker()] + body_lines(a) + seq![end_marker()],
{
    reveal_strlit("\n");
    reveal_strlit("\n\n");
    lemma_block_pieces(a);
    lemma_clean_pieces(tb);
    let mb = managed_block(a);
    let r = tb + "\n\n"@ + mb + "\n"@;
    let x = tb + seq!['\n'] + (Seq::<char>::empty() + seq!['\n'] + mb);
    assert(r.drop_last() =~= x);
    text::lemma_split_append(tb, Seq::<char>::empty() + seq!['\n'] + mb, '\n');
    text::lemma_split_append(Seq::<char>::empty(), mb, '\n');
    assert(text::split_on(Seq::<char>::empty(), '\n') == seq![Seq::<char>::empty()]);
    let pt = text::split_on(tb, '\n');
    let m = text::split_on(mb, '\n');
    assert(text::split_on(x, '\n') == pt + (seq![Seq::<char>::empty()] + m));
    assert(text::strip_cr(Seq::<char>::empty()) == Seq::<char>::empty());
    assert(text::split_on(x, '\n').map_values(|l: Seq<char>| text::strip_cr(l)) =~= pt.map_values(
        |l: Seq<char>| text::strip_cr(l),
    ) + seq![Seq::<char>::empty()] + m.map_values(|l: Seq<char>| text::strip_cr(l)));
}

/// Writing the block for `a` into a text and then writing it again changes
/// nothing: the second update finds the first block, removes it and puts
/// the same one back. This holds when the text holds no carriage return,
/// its lines (without trailing line breaks) are no marker lines, the
/// aliases are valid, and no line of the rendered block between its
/// markers reads as a marker.
proof fn lemma_update_idempotent(b: Seq<char>, a: Seq<AliasEntry>)
    requires
        forall|k: int| 0 <= k < b.len() ==> b[k] != '\r',
        no_marker_lines(text::split_on(trim_newlines(b), '\n')),
        alias_entry::first_entry_error(a) is None,
        no_marker_lines(body_lines(a)),
    ensures
        without_block(with_block(b, a)) is Ok,
        with_block(without_block(with_block(b, a))->Ok_0, a) == with_block(b, a),
        marker_lines(text::lines(with_block(b, a)), text::lines(with_block(b, a)).len() as int)
            == seq![start_marker(), end_marker()],
{
    reveal_strlit("\n");
    lemma_markers_plain();
    lemma_trim_newlines_plain(b);
    let tb = trim_newlines(b);
    let sm = start_marker();
    let em = end_marker();
    let inner = body_lines(a);
    let mb = managed_block(a);
    let r = with_block(b, a);
    assert forall|k: int| 0 <= k < tb.len() implies tb[k] != '\r' by {
        assert(tb[k] == b[k]);
    }
    if tb.len() > 0 {
        assert(r == tb + "\n\n"@ + mb + "\n"@);
        lemma_lines_with_block(tb, a);
        let pt = text::split_on(tb, '\n');
        let p = pt + seq![Seq::<char>::empty()];
        let ls = text::lines(r);
        assert(ls =~= p + seq![sm] + inner + seq![em]);
        assert(no_marker_lines(p)) by {
            assert forall|i: int| 0 <= i < p.len() implies text::trim(#[trigger] p[i]) != sm
                && text::trim(p[i]) != em by {
                if i < pt.len() {
                    assert(p[i] == pt[i]);
                } else {
                    assert(p[i] == Seq::<char>::empty());
                    assert(text::trim(Seq::<char>::empty()) =~= Seq::<char>::empty());
                }
            }
        }
        lemma_scan_shape(p, inner, ls.len() as int);
        text::lemma_join_split(tb, '\n');
        assert("\n"@ =~= seq!['\n']);
        let j = text::join(p, "\n"@);
        text::lemma_split_on_nonempty(tb, '\n');
        assert(p.drop_last() =~= pt);
        assert(j == tb + "\n"@);
        let base2 = j + "\n"@;
        assert(r.last() == '\n');
        assert(without_block(r) == Ok::<Seq<char>, Seq<char>>(base2));
        assert(base2 =~= tb + seq!['\n'] + seq!['\n']);
        assert(base2.drop_last() =~= tb + seq!['\n']);
        assert((tb + seq!['\n']).drop_last() =~= tb);
        let tb1 = tb + seq!['\n'];
        assert(base2.len() > 0 && base2.last() == '\n');
        assert(trim_newlines(base2) == trim_newlines(tb1));
        assert(tb1.len() > 0 && tb1.last() == '\n');
        assert(tb1.drop_last() =~= tb);
        assert(trim_newlines(tb1) == trim_newlines(tb));
        assert(trim_newlines(tb) == tb);
        assert(trim_newlines(base2) == tb);
        assert(with_block(base2, a) == r);
        let i0 = p.len() as int;
        assert(ls[i0] == sm);
        assert(ls[ls.len() - 1] == em);
        assert(text::trim(ls[i0]) == sm);
        assert(text::trim(ls[ls.len() - 1]) == em);
        lemma_present_by_markers(r);
    } else {
        lemma_block_pieces(a);
        assert(r == mb + "\n"@);
        assert(r.drop_last() =~= mb);
        let ls = text::lines(r);
        assert(ls =~= seq![sm] + inner + seq![em]);
        assert(Seq::<Seq<char>>::empty() + seq![sm] + inner + seq![em] =~= ls);
        lemma_scan_shape(Seq::empty(), inner, ls.len() as int);
        assert(text::join(Seq::<Seq<char>>::empty(), "\n"@) =~= Seq::<char>::empty());
        assert(without_block(r) == Ok::<Seq<char>, Seq<char>>(Seq::empty()));
        assert(trim_newlines(Seq::<char>::empty()) =~= Seq::<char>::empty());
        assert(ls[0] == sm);
        assert(ls[ls.len() - 1] == em);
        assert(text::trim(ls[0]) == sm);
        assert(text::trim(ls[ls.len() - 1]) == em);
        lemma_present_by_markers(r);
    }
}

proof fn lemma_removal_has_no_cr(c: Seq<char>)
    requires
        forall|k: int| 0 <= k < c.len() ==> c[k] != '\r',
        without_block(c) is Ok,
    ensures
        forall|k: int| 0 <= k < (without_block(c)->Ok_0).len() ==> (without_block(c)->Ok_0)[k] != '\r',
{
    reveal_strlit("\n");
    let ls = text::lines(c);
    lemma_lines_clean(c);
    lemma_scan_output(ls, ls.len() as int);
    let out = block_scan(ls, ls.len() as int)->Ok_0.0;
    assert("\n"@ =~= seq!['\n']);
    text::lemma_join_avoid(out, '\n', '\r');
    let r0 = text::join(out, "\n"@);
    let r = without_block(c)->Ok_0;
    assert forall|k: int| 0 <= k < r.len() implies r[k] != '\r' by {
        if k < r0.len() {
            assert(r[k] == r0[k]);
        }
    }
}

proof fn lemma_trimmed_pieces(b: Seq<char>)
    requires
        forall|k: int| 0 <= k < b.len() ==> b[k] != '\r',
        no_marker_lines(text::lines(b)),
    ensures
        no_marker_lines(text::split_on(trim_newlines(b), '\n')),
    decreases b.len(),
{
    lemma_markers_plain();
    if b.len() == 0 {
        assert(text::trim(Seq::<char>::empty()) =~= Seq::<char>::empty());
        assert(text::split_on(b, '\n') == seq![Seq::<char>::empty()]);
    } else if b.last() != '\n' {
        lemma_clean_pieces(b);
        let p = text::split_on(b, '\n');
        text::lemma_split_on_nonempty(b, '\n');
        assert(text::lines(b) =~= p) by {
            let q = p.take(p.len() - 1).map_values(|l: Seq<char>| text::strip_cr(l));
            assert forall|i: int| 0 <= i < p.len() - 1 implies q[i] == p[i] by {
                assert(p.map_values(|l: Seq<char>| text::strip_cr(l))[i] == p[i]);
            }
        }
    } else {
        let b1 = b.drop_last();
        assert forall|k: int| 0 <= k < b1.len() implies b1[k] != '\r' by {
            assert(b1[k] == b[k]);
        }
        lemma_clean_pieces(b1);
        let p = text::split_on(b1, '\n');
        assert(text::lines(b) == p);
        assert(no_marker_lines(text::lines(b1))) by {
            if b1.len() > 0 && b1.last() == '\n' {
                let b2 = b1.drop_last();
                assert(b2 + seq!['\n'] + Seq::<char>::empty() =~= b1);
                text::lemma_split_append(b2, Seq::<char>::empty(), '\n');
                assert forall|k: int| 0 <= k < b2.len() implies b2[k] != '\r' by {
                    assert(b2[k] == b1[k]);
                }
                lemma_clean_pieces(b2);
                let p2 = text::split_on(b2, '\n');
                assert(text::lines(b1) == p2);
                assert forall|i: int| 0 <= i < p2.len() implies text::trim(#[trigger] p2[i]) != start_marker()
                    && text::trim(p2[i]) != end_marker() by {
                    assert(p[i] == p2[i]);
                }
            } else if b1.len() > 0 {
                text::lemma_split_on_nonempty(b1, '\n');
                let q = p.take(p.len() - 1).map_values(|l: Seq<char>| text::strip_cr(l));
                assert forall|i: int| 0 <= i < p.len() - 1 implies q[i] == p[i] by {
                    assert(p.map_values(|l: Seq<char>| text::strip_cr(l))[i] == p[i]);
                }
                assert(text::lines(b1) =~= p);
            } else {
                assert(text::lines(b1) =~= Seq::<Seq<char>>::empty());
            }
        }
        lemma_trimmed_pieces(b1);
        assert(trim_newlines(b) == trim_newlines(b1));
    }
}

/// Updating a startup file twice with the same aliases changes nothing the
/// second time, and the updated file holds exactly one start and one end
/// marker line, in that order; this holds where no line of the new block
/// reads as a marker.
pub proof fn lemma_update_stable(c: Seq<char>, a: Seq<AliasEntry>)
    requires
        forall|k: int| 0 <= k < c.len() ==> c[k] != '\r',
        without_block(c) is Ok,
        alias_entry::first_entry_error(a) is None,
        no_marker_lines(body_lines(a)),
    ensures
        ({
            let r = with_block(without_block(c)->Ok_0, a);
            &&& without_block(r) is Ok
            &&& with_block(without_block(r)->Ok_0, a) == r
            &&& marker_lines(text::lines(r), text::lines(r).len() as int) == seq![start_marker(), end_marker()]
        }),
{
    reveal_strlit("\n");
    let b = without_block(c)->Ok_0;
    lemma_removal_has_no_cr(c);
    if b == "\n"@ {
        assert(b.drop_last() =~= Seq::<char>::empty());
        assert(trim_newlines(b) == trim_newlines(Seq::<char>::empty()));
        assert(text::trim(Seq::<char>::empty()) =~= Seq::<char>::empty());
        lemma_markers_plain();
        assert(text::split_on(trim_newlines(b), '\n') == seq![Seq::<char>::empty()]);
    } else {
        lemma_without_block_idempotent(c);
        lemma_trimmed_pieces(b);
    }
    lemma_update_idempotent(b, a);
}

/// Whether the line after the first `k` lines lies inside the block.
pub open spec fn inside_after(ls: Seq<Seq<char>>, k: int) -> bool
    decreases k,
{
    if k <= 0 {
        false
    } else {
        let t = text::trim(ls[k - 1]);
        if t == start_marker() {
            true
        } else if t == end_marker() {
            false
        } else {
            inside_after(ls, k - 1)
        }
    }
}

/// The importable aliases among the first `k` lines outside the block.
pub open spec fn parsed_outside_block(ls: Seq<Seq<char>>, k: int) -> Seq<(int, Seq<char>, Seq<char>)>
    decreases k,
{
    if k <= 0 {
        Seq::empty()
    } else {
        let prev = parsed_outside_block(ls, k - 1);
        let t = text::trim(ls[k - 1]);
        if t == start_marker() || t == end_marker() || inside_after(ls, k - 1) {
            prev
        } else {
            match shell_alias::parse_alias_line(ls[k - 1]) {
                Some((name, command)) => prev.push((k, name, command)),
                None => prev,
            }
        }
    }
}

/// The import candidates of a startup file with an EasyAlias block.
pub open spec fn block_file_aliases(ls: Seq<Seq<char>>) -> Seq<(int, Seq<char>, Seq<char>)> {
    shell_alias::keep_unique(
        parsed_outside_block(ls, ls.len() as int),
        parsed_outside_block(ls, ls.len() as int),
    )
}

/// The aliases that can be imported from a startup file: the marker
/// structure is validated first, then only lines outside the block count;
/// ids keep referring to the real line numbers.
pub fn find_shell_aliases(content: &str) -> (r: Result<Vec<ShellAliasCandidate>, String>)
    ensures
        match without_block(content@) {
            Err(e) => r is Err && r->Err_0@ == e,
            Ok(_) => r is Ok && r->Ok_0@.map_values(|c: ShellAliasCandidate| c.spec_entry())
                == block_file_aliases(text::lines(content@)) && forall|i: int|
                0 <= i < r->Ok_0@.len() ==> (#[trigger] r->Ok_0@[i]).id@ == shell_alias::line_id(
                    r->Ok_0@[i].line_number as nat,
                ),
        },
{
    match without_managed_block(content) {
        Err(e) => {
            return Err(e);
        },
        Ok(_) => {},
    }
    let s = chars_of(content);
    let ls = lines_chars(&s);
    let ghost lv = ls@.map_values(|l: Vec<char>| l@);
    let start = chars_of(MANAGED_BLOCK_START);
    let end = chars_of(MANAGED_BLOCK_END);
    let mut inside = false;
    let mut parsed: Vec<ShellAliasCandidate> = Vec::new();
    let mut i: usize = 0;
    while i < ls.len()
        invariant
            i <= ls.len(),
            lv == ls@.map_values(|l: Vec<char>| l@),
            start@ == start_marker(),
            end@ == end_marker(),
            inside == inside_after(lv, i as int),
            parsed@.map_values(|c: ShellAliasCandidate| c.spec_entry()) == parsed_outside_block(
                lv,
                i as int,
            ),
            forall|k: int|
                0 <= k < parsed@.len() ==> (#[trigger] parsed@[k]).id@ == shell_alias::line_id(
                    parsed@[k].line_number as nat,
                ),
        decreases ls.len() - i,
    {
        let t = trim_chars(&ls[i]);
        assert(lv[i as int] == ls@[i as int]@);
        if eq_chars(&t, &start) {
            inside = true;
        } else if eq_chars(&t, &end) {
            inside = false;
        } else if !inside {
            match parse_alias_chars(&ls[i]) {
                Some((name, command)) => {
                    let c = ShellAliasCandidate {
                        id: line_id_string(i + 1),
                        name: string_of(&name),
                        command: string_of(&command),
                        line_number: i + 1,
                        source_file: String::new(),
                    };
                    parsed.push(c);
                    assert(parsed@.map_values(|c: ShellAliasCandidate| c.spec_entry())
                        =~= parsed_outside_block(lv, i as int).push(((i + 1) as int, name@, command@)));
                },
                None => {},
            }
        }
        i = i + 1;
    }
    let r = keep_unique_names(parsed);
    Ok(r)
}

} // verus!
