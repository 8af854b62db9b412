//! SSH config `Host` block parser, the block-oriented variant: a `Host` line
//! may continue on following lines with a trailing backslash, and the aliases
//! that are themselves git provider domains are left out. An identity alias
//! such as `github-personal` with `HostName github.com` is what the git
//! account dropdown is for, so a block's `HostName` does not remove it.

use vstd::prelude::*;

use crate::ssh_hosts::{is_git_provider, is_git_provider_chars, listed_provider_domain};
use crate::text::{
    chars_of, contains_char, eq_ignore_ascii_case, eq_ignore_case_range, insert_sorted,
    is_whitespace, lemma_word_len_bounds, lemma_words_step, line_at, lines, lower, skip_ws,
    strictly_sorted, string_of_range, string_views, trim_end, trim_end_at, trim_end_char,
    trim_end_matches, trim_start, word_end, word_len, words, all_ws, ends_in_newline, is_word,
    lemma_lines_concat, lemma_single_line, lemma_trim_start_after_ws, lemma_word_len_of_word,
    lemma_word_trim, lemma_find_after, find, strip_cr, is_ws,
};

verus! {

// ---------------------------------------------------------------------------
// Meaning
// ---------------------------------------------------------------------------

/// A host pattern that is kept: no negation, no `*`, not a lone backslash,
/// not empty.
pub open spec fn kept_pattern(t: Seq<char>) -> bool {
    &&& !(t.len() > 0 && t[0] == '!')
    &&& !t.contains('*')
    &&& t != seq!['\\']
    &&& t.len() > 0
}

/// The host patterns of a line's words: each word with its trailing
/// backslashes removed, kept per `kept_pattern`.
pub open spec fn host_patterns(ws: Seq<Seq<char>>) -> Seq<Seq<char>>
    decreases ws.len(),
{
    if ws.len() == 0 {
        seq![]
    } else {
        let t = trim_end_matches(ws[0], '\\');
        (if kept_pattern(t) {
            seq![t]
        } else {
            seq![]
        }) + host_patterns(ws.drop_first())
    }
}

/// Whether `s` ends with a backslash.
pub open spec fn ends_with_backslash(s: Seq<char>) -> bool {
    s.len() > 0 && s.last() == '\\'
}

/// The aliases of a finished block that are offered: those that are not
/// themselves git provider domains.
pub open spec fn block_hosts(aliases: Set<Seq<char>>) -> Set<Seq<char>> {
    aliases.filter(|a: Seq<char>| !is_git_provider(a))
}

/// Scanner state: hosts offered so far, the current block's aliases, and
/// whether the last `Host` line continues.
pub type BlockScan = (Set<Seq<char>>, Set<Seq<char>>, bool);

/// The scanner state after one raw line.
pub open spec fn block_scan_line(st: BlockScan, raw: Seq<char>) -> BlockScan {
    let line = trim_start(raw);
    if st.2 {
        (st.0, st.1.union(host_patterns(words(line)).to_set()), ends_with_backslash(
            trim_end(line),
        ))
    } else {
        let k = word_len(line);
        if k == 0 {
            st
        } else {
            let kw = line.take(k as int);
            let value = trim_start(line.skip(k as int));
            if eq_ignore_ascii_case(kw, "host"@) {
                let pats = host_patterns(words(value)).to_set();
                let cont = ends_with_backslash(trim_end(line));
                if st.1 != Set::<Seq<char>>::empty() {
                    (st.0.union(block_hosts(st.1)), pats, cont)
                } else {
                    (st.0, st.1.union(pats), cont)
                }
            } else {
                st
            }
        }
    }
}

/// The scanner state after the lines `ls`, in order.
pub open spec fn block_scan_lines(ls: Seq<Seq<char>>, st: BlockScan) -> BlockScan
    decreases ls.len(),
{
    if ls.len() == 0 {
        st
    } else {
        block_scan_lines(ls.drop_first(), block_scan_line(st, ls[0]))
    }
}

/// The `Host` aliases that `config` offers, per the block rules above.
pub open spec fn ssh_config_hosts(config: Seq<char>) -> Set<Seq<char>> {
    let st = block_scan_lines(lines(config), (Set::empty(), Set::empty(), false));
    if st.1 != Set::<Seq<char>>::empty() {
        st.0.union(block_hosts(st.1))
    } else {
        st.0
    }
}

// ---------------------------------------------------------------------------
// Laws
// ---------------------------------------------------------------------------

/// Every element of `s` is a kept host pattern.
pub open spec fn all_kept(s: Set<Seq<char>>) -> bool {
    forall|a: Seq<char>| #[trigger] s.contains(a) ==> kept_pattern(a)
}

proof fn lemma_host_patterns_kept(ws: Seq<Seq<char>>)
    ensures
        all_kept(host_patterns(ws).to_set()),
    decreases ws.len(),
{
    if ws.len() > 0 {
        lemma_host_patterns_kept(ws.drop_first());
        let t = trim_end_matches(ws[0], '\\');
        let head: Seq<Seq<char>> = if kept_pattern(t) {
            seq![t]
        } else {
            seq![]
        };
        let rest = host_patterns(ws.drop_first());
        assert forall|a: Seq<char>| #[trigger] host_patterns(ws).to_set().contains(a) implies kept_pattern(a) by {
            let all = head + rest;
            assert(host_patterns(ws) == all);
            let i = choose|i: int| 0 <= i < all.len() && #[trigger] all[i] == a;
            if i >= head.len() {
                assert(rest[i - head.len()] == a);
                assert(rest.to_set().contains(a));
            }
        }
    }
}

proof fn lemma_block_scan_keeps(ls: Seq<Seq<char>>, st: BlockScan)
    requires
        all_kept(st.0),
        all_kept(st.1),
    ensures
        all_kept(block_scan_lines(ls, st).0),
        all_kept(block_scan_lines(ls, st).1),
    decreases ls.len(),
{
    if ls.len() > 0 {
        let line = trim_start(ls[0]);
        lemma_host_patterns_kept(words(line));
        let k = word_len(line);
        lemma_host_patterns_kept(words(trim_start(line.skip(k as int))));
        lemma_block_scan_keeps(ls.drop_first(), block_scan_line(st, ls[0]));
    }
}

/// Every host that `parse_ssh_config_hosts` offers is a non-empty pattern
/// without `*`, not a negation, and not a lone backslash.
pub proof fn lemma_offered_hosts_kept(config: Seq<char>, a: Seq<char>)
    requires
        ssh_config_hosts(config).contains(a),
    ensures
        kept_pattern(a),
{
    lemma_block_scan_keeps(lines(config), (Set::empty(), Set::empty(), false));
}

/// Only a line whose keyword is `host` (in any ASCII case) starts or adds
/// to a block: after `Host a`, a line `k b` with any other keyword `k` (such
/// as `HostName` or `HostKeyAlgorithms`) adds no alias, and `a` alone is
/// offered.
pub proof fn lemma_other_keyword_adds_no_alias(a: Seq<char>, k: Seq<char>, b: Seq<char>)
    requires
        is_word(a),
        is_word(k),
        is_word(b),
        !eq_ignore_ascii_case(k, "host"@),
        a[0] != '!',
        !a.contains('*'),
        !a.contains('\\'),
        !listed_provider_domain(lower(a)),
    ensures
        ssh_config_hosts("Host "@ + a + "\n  "@ + k + " "@ + b + "\n"@) == set![a],
{
    reveal_strlit("Host ");
    reveal_strlit("\n  ");
    reveal_strlit(" ");
    reveal_strlit("\n");
    reveal_strlit("Host");
    reveal_strlit("host");
    let host: Seq<char> = "Host"@;
    let line1 = host + seq![' '] + a;
    let line2 = seq![' ', ' '] + k + seq![' '] + b;
    let config = "Host "@ + a + "\n  "@ + k + " "@ + b + "\n"@;
    assert(config =~= (line1 + seq!['\n']) + (line2 + seq!['\n']));
    assert(!line1.contains('\n')) by {
        if line1.contains('\n') {
            let i = choose|i: int| 0 <= i < line1.len() && line1[i] == '\n';
            if i > host.len() {
                assert(a[i - host.len() - 1] == '\n');
            }
        }
    }
    assert(!line2.contains('\n')) by {
        if line2.contains('\n') {
            let i = choose|i: int| 0 <= i < line2.len() && line2[i] == '\n';
            if 2 <= i < k.len() + 2 {
                assert(k[i - 2] == '\n');
            } else if i > k.len() + 2 {
                assert(b[i - k.len() - 3] == '\n');
            }
        }
    }
    assert(line1.last() == a.last());
    assert(line2.last() == b.last());
    lemma_single_line(line1);
    lemma_single_line(line2);
    lemma_lines_concat(line1 + seq!['\n'], line2 + seq!['\n']);
    let ls = lines(config);
    assert(ls =~= seq![line1, line2]);
    // Line 1: `Host a` starts the block of `a`.
    let st0: BlockScan = (Set::empty(), Set::empty(), false);
    assert(trim_start(line1) == line1);
    assert(line1 =~= host + (seq![' '] + a));
    lemma_word_len_of_word(host, seq![' '] + a);
    assert(line1.take(4) =~= host);
    assert(line1.skip(4) =~= seq![' '] + a);
    assert(all_ws(seq![' ']));
    lemma_trim_start_after_ws(seq![' '], a);
    lemma_word_trim(a);
    assert(lower(host) =~= lower("host"@));
    let t = trim_end_matches(a, '\\');
    assert(a.last() != '\\') by {
        assert(a[a.len() - 1] != '\\');
    }
    assert(t == a);
    assert(crate::ssh_config::kept_pattern(a)) by {
        if a =~= seq!['\\'] {
            assert(a[0] == '\\');
        }
    }
    let pats = host_patterns(words(a));
    assert(host_patterns(Seq::<Seq<char>>::empty()) =~= Seq::<Seq<char>>::empty());
    assert(words(a).drop_first() =~= Seq::<Seq<char>>::empty());
    assert(pats =~= seq![a]);
    assert(trim_end(line1) == line1) by {
        assert(!crate::text::is_ws(line1.last()));
    }
    let st1 = block_scan_line(st0, line1);
    assert(st1 == (Set::<Seq<char>>::empty(), Set::<Seq<char>>::empty().union(seq![a].to_set()), false));
    assert(seq![a].to_set() =~= set![a]);
    assert(Set::<Seq<char>>::empty().union(set![a]) =~= set![a]);
    // Line 2: `k b` leaves it alone.
    let rest2 = k + seq![' '] + b;
    assert(line2 =~= seq![' ', ' '] + rest2);
    assert(all_ws(seq![' ', ' ']));
    lemma_trim_start_after_ws(seq![' ', ' '], rest2);
    lemma_word_trim(k);
    assert(trim_start(rest2) == rest2) by {
        assert(rest2[0] == k[0]);
    }
    assert(rest2 =~= k + (seq![' '] + b));
    lemma_word_len_of_word(k, seq![' '] + b);
    assert(rest2.take(k.len() as int) =~= k);
    let st2 = block_scan_line(st1, line2);
    assert(st2 == st1);
    assert(ls[0] == line1);
    assert(ls.drop_first()[0] == line2);
    assert(block_scan_lines(ls.drop_first().drop_first(), st2) == st2) by {
        assert(ls.drop_first().drop_first() =~= Seq::<Seq<char>>::empty());
    }
    assert(block_scan_lines(ls.drop_first(), st1) == block_scan_lines(
        ls.drop_first().drop_first(),
        st2,
    ));
    assert(block_scan_lines(ls, st0) == block_scan_lines(ls.drop_first(), st1));
    assert(block_scan_lines(ls, st0) == st2);
    assert(!is_git_provider(a));
    assert(block_hosts(set![a]) =~= set![a]);
    assert(Set::<Seq<char>>::empty().union(set![a]) =~= set![a]);
    assert(set![a] != Set::<Seq<char>>::empty()) by {
        assert(set![a].contains(a));
    }
}

/// Whether the last line of `pre` that the scan read as a `Host` line (or
/// its continuation) ends in a backslash, so that the next line continues it.
pub open spec fn continues_host_line(pre: Seq<char>) -> bool {
    block_scan_lines(lines(pre), (Set::empty(), Set::empty(), false)).2
}

proof fn lemma_block_scan_concat(a: Seq<Seq<char>>, b: Seq<Seq<char>>, st: BlockScan)
    ensures
        block_scan_lines(a + b, st) == block_scan_lines(b, block_scan_lines(a, st)),
    decreases a.len(),
{
    if a.len() == 0 {
        assert(a + b =~= b);
    } else {
        assert((a + b)[0] == a[0]);
        assert((a + b).drop_first() =~= a.drop_first() + b);
        lemma_block_scan_concat(a.drop_first(), b, block_scan_line(st, a[0]));
    }
}

/// A piece without a newline, followed by one, is one line, less a final
/// carriage return.
proof fn lemma_one_line(l: Seq<char>)
    requires
        !l.contains('\n'),
    ensures
        lines(l + seq!['\n']) == seq![strip_cr(l)],
{
    let s = l + seq!['\n'];
    lemma_find_after(l, seq!['\n'], '\n');
    assert(find(seq!['\n'], '\n') == 0);
    assert(s.take(l.len() as int) =~= l);
    assert(s.skip(l.len() + 1int) =~= Seq::<char>::empty());
    assert(find(s, '\n') == l.len());
    assert(lines(Seq::<char>::empty()) =~= Seq::<Seq<char>>::empty());
    assert(lines(s) == seq![strip_cr(s.take(l.len() as int))] + lines(s.skip(l.len() + 1int)));
    assert(lines(s) =~= seq![strip_cr(l)]);
}

/// Only a line whose keyword is `host` (in any ASCII case) starts or adds
/// to a block. A line that does not continue a `Host` line and whose first
/// word is anything else (`HostName b`, `HostKeyAlgorithms y`,
/// `IdentityFile f`) adds no alias: the config offers exactly the hosts it
/// offers without that line.
pub proof fn lemma_other_keyword_line_ignored(
    pre: Seq<char>,
    ws: Seq<char>,
    k: Seq<char>,
    rest: Seq<char>,
    post: Seq<char>,
)
    requires
        ends_in_newline(pre),
        !continues_host_line(pre),
        all_ws(ws),
        is_word(k),
        rest.len() == 0 || is_ws(rest[0]),
        !(ws + k + rest).contains('\n'),
        !eq_ignore_ascii_case(k, "host"@),
    ensures
        ssh_config_hosts(pre + ws + k + rest + "\n"@ + post) == ssh_config_hosts(pre + post),
{
    reveal_strlit("\n");
    let l = ws + k + rest;
    let config = pre + ws + k + rest + "\n"@ + post;
    assert(config =~= pre + ((l + seq!['\n']) + post));
    lemma_lines_concat(pre, (l + seq!['\n']) + post);
    lemma_lines_concat(l + seq!['\n'], post);
    lemma_lines_concat(pre, post);
    lemma_one_line(l);
    // The line as `lines` gives it: `ws + k + r` with `r` empty or starting
    // with whitespace.
    let r = if rest.len() > 0 && rest.last() == '\r' {
        rest.drop_last()
    } else {
        rest
    };
    assert(strip_cr(l) =~= ws + (k + r)) by {
        if rest.len() == 0 {
            assert(l.last() == k.last());
            assert(!is_ws(k[k.len() - 1]));
        } else {
            assert(l.last() == rest.last());
        }
    }
    assert(r.len() == 0 || is_ws(r[0])) by {
        if r.len() > 0 {
            assert(r[0] == rest[0]);
        }
    }
    let line = strip_cr(l);
    lemma_trim_start_after_ws(ws, k + r);
    assert((k + r)[0] == k[0]);
    assert(trim_start(k + r) == k + r);
    lemma_word_len_of_word(k, r);
    assert((k + r).take(k.len() as int) =~= k);
    let init: BlockScan = (Set::empty(), Set::empty(), false);
    let st = block_scan_lines(lines(pre), init);
    assert(block_scan_line(st, line) == st);
    let ls_post = lines(post);
    lemma_block_scan_concat(lines(pre), seq![line] + ls_post, init);
    assert((seq![line] + ls_post)[0] == line);
    assert((seq![line] + ls_post).drop_first() =~= ls_post);
    lemma_block_scan_concat(lines(pre), ls_post, init);
    assert(lines(config) =~= lines(pre) + (seq![line] + ls_post));
    assert(block_scan_lines(lines(config), init) == block_scan_lines(lines(pre + post), init));
}

// ---------------------------------------------------------------------------
// Parser
// ---------------------------------------------------------------------------

/// Parse `~/.ssh/config` content and return the SSH `Host` aliases that are
/// not direct git provider domains, sorted and without duplicates.
///
/// Aliases that are git provider domains themselves (`github.com`) are left
/// out, whatever the block's `HostName`; patterns with `*` and negations
/// (`!`) are never offered.
pub fn parse_ssh_config_hosts(config: &str) -> (hosts: Vec<String>)
    ensures
        strictly_sorted(string_views(hosts@)),
        string_views(hosts@).to_set() == ssh_config_hosts(config@),
{
    let v = chars_of(config);
    let n = v.len();
    let host_kw = chars_of("host");
    let mut result: Vec<String> = Vec::new();
    let mut aliases: Vec<String> = Vec::new();
    let mut cont = false;
    let mut pos: usize = 0;
    let ghost init: BlockScan = (Set::empty(), Set::empty(), false);
    assert(v@.subrange(0, n as int) =~= v@);
    assert(string_views(result@).to_set() =~= Set::empty());
    assert(string_views(aliases@).to_set() =~= Set::empty());
    while pos < n
        invariant
            pos <= n == v.len(),
            v@ == config@,
            host_kw@ == "host"@,
            strictly_sorted(string_views(result@)),
            block_scan_lines(lines(config@), init) == block_scan_lines(
                lines(v@.subrange(pos as int, n as int)),
                (
                    string_views(result@).to_set(),
                    string_views(aliases@).to_set(),
                    cont,
                ),
            ),
        decreases n - pos,
    {
        let (line_hi, next) = line_at(&v, pos);
        let ghost rest = lines(v@.subrange(next as int, n as int));
        let ghost line = v@.subrange(pos as int, line_hi as int);
        assert((seq![line] + rest).drop_first() =~= rest);
        block_scan_line_exec(
            &v,
            pos,
            line_hi,
            &host_kw,
            &mut result,
            &mut aliases,
            &mut cont,
        );
        pos = next;
    }
    assert(v@.subrange(n as int, n as int) =~= Seq::<char>::empty());
    if aliases.len() > 0 {
        assert(string_views(aliases@)[0] == aliases@[0]@);
        assert(string_views(aliases@).to_set().contains(aliases@[0]@));
        emit_block(&aliases, &mut result);
    } else {
        assert(string_views(aliases@).to_set() =~= Set::empty());
    }
    result
}

/// One line of the scan: `v[lo..hi]`.
fn block_scan_line_exec(
    v: &Vec<char>,
    lo: usize,
    hi: usize,
    host_kw: &Vec<char>,
    result: &mut Vec<String>,
    aliases: &mut Vec<String>,
    cont: &mut bool,
)
    requires
        lo <= hi <= v.len(),
        host_kw@ == "host"@,
        strictly_sorted(string_views(old(result)@)),
    ensures
        strictly_sorted(string_views(final(result)@)),
        (
            string_views(final(result)@).to_set(),
            string_views(final(aliases)@).to_set(),
            *final(cont),
        ) == block_scan_line(
            (
                string_views(old(result)@).to_set(),
                string_views(old(aliases)@).to_set(),
                *old(cont),
            ),
            v@.subrange(lo as int, hi as int),
        ),
{
    let ls = skip_ws(v, lo, hi);
    let ghost line = v@.subrange(ls as int, hi as int);
    if *cont {
        let te = trim_end_at(v, ls, hi);
        let pats = host_patterns_exec(v, ls, hi);
        extend_aliases(aliases, &pats);
        *cont = te > ls && v[te - 1] == '\\';
        return;
    }
    let k = word_end(v, ls, hi);
    if k == ls {
        return;
    }
    assert(line.take(k - ls) =~= v@.subrange(ls as int, k as int));
    assert(line.skip(k - ls) =~= v@.subrange(k as int, hi as int));
    let vs = skip_ws(v, k, hi);
    if eq_ignore_case_range(v, ls, k, host_kw) {
        let te = trim_end_at(v, ls, hi);
        let pats = host_patterns_exec(v, vs, hi);
        let c = te > ls && v[te - 1] == '\\';
        if aliases.len() > 0 {
            assert(string_views(aliases@)[0] == aliases@[0]@);
        assert(string_views(aliases@).to_set().contains(aliases@[0]@));
            emit_block(aliases, result);
            *aliases = pats;
        } else {
            assert(string_views(aliases@).to_set() =~= Set::empty());
            extend_aliases(aliases, &pats);
        }
        *cont = c;
    }
}

/// Append `pats` to `aliases`.
fn extend_aliases(aliases: &mut Vec<String>, pats: &Vec<String>)
    ensures
        string_views(final(aliases)@).to_set() == string_views(old(aliases)@).to_set().union(
            string_views(pats@).to_set(),
        ),
{
    let ghost a0 = string_views(aliases@);
    let mut k: usize = 0;
    while k < pats.len()
        invariant
            k <= pats.len(),
            string_views(aliases@) == a0 + string_views(pats@).take(k as int),
        decreases pats.len() - k,
    {
        let ghost prev = aliases@;
        aliases.push(pats[k].clone());
        assert(string_views(aliases@) =~= string_views(prev).push(pats@[k as int]@));
        assert(string_views(pats@)[k as int] == pats@[k as int]@);
        assert(string_views(aliases@) =~= a0 + string_views(pats@).take(k + 1));
        k += 1;
    }
    let ghost p = string_views(pats@);
    assert(p.take(pats.len() as int) =~= p);
    assert forall|e: Seq<char>| (a0 + p).contains(e) <==> (a0.contains(e) || p.contains(e)) by {
        if (a0 + p).contains(e) {
            let i = choose|i: int| 0 <= i < (a0 + p).len() && #[trigger] (a0 + p)[i] == e;
            if i < a0.len() {
                assert(a0[i] == e);
            } else {
                assert(p[i - a0.len()] == e);
            }
        }
        if a0.contains(e) {
            let i = choose|i: int| 0 <= i < a0.len() && #[trigger] a0[i] == e;
            assert((a0 + p)[i] == e);
        }
        if p.contains(e) {
            let i = choose|i: int| 0 <= i < p.len() && #[trigger] p[i] == e;
            assert((a0 + p)[a0.len() + i] == e);
        }
    }
    assert(string_views(aliases@).to_set() =~= a0.to_set().union(p.to_set()));
}

/// The host patterns of the words of `v[lo..hi]`.
fn host_patterns_exec(v: &Vec<char>, lo: usize, hi: usize) -> (out: Vec<String>)
    requires
        lo <= hi <= v.len(),
    ensures
        string_views(out@) == host_patterns(words(v@.subrange(lo as int, hi as int))),
{
    let mut out: Vec<String> = Vec::new();
    let mut i = lo;
    assert(string_views(out@) =~= Seq::<Seq<char>>::empty());
    while i < hi
        invariant
            lo <= i <= hi <= v.len(),
            host_patterns(words(v@.subrange(lo as int, hi as int))) == string_views(out@)
                + host_patterns(words(v@.subrange(i as int, hi as int))),
        decreases hi - i,
    {
        if is_whitespace(v[i]) {
            proof {
                lemma_words_step(v@, i as int, i as int, hi as int);
            }
            i += 1;
        } else {
            let j = word_end(v, i, hi);
            proof {
                assert(v@.subrange(i as int, hi as int)[0] == v@[i as int]);
                lemma_word_len_bounds(v@.subrange(i as int, hi as int));
                lemma_words_step(v@, i as int, j as int, hi as int);
                let ws = seq![v@.subrange(i as int, j as int)] + words(
                    v@.subrange(j as int, hi as int),
                );
                assert(ws[0] == v@.subrange(i as int, j as int));
                assert(ws.drop_first() =~= words(v@.subrange(j as int, hi as int)));
            }
            let t = trim_end_char(v, i, j, '\\');
            let ghost tok = v@.subrange(i as int, t as int);
            let keep = t > i && v[i] != '!' && !contains_char(v, i, t, '*') && !(t == i + 1
                && v[i] == '\\');
            proof {
                if t > i {
                    assert(tok[0] == v@[i as int]);
                }
                if t == i + 1 && v@[i as int] == '\\' {
                    assert(tok =~= seq!['\\']);
                }
                if tok == seq!['\\'] {
                    assert(seq!['\\'].len() == 1);
                    assert(t == i + 1);
                    assert(tok[0] == v@[i as int]);
                }
                if t == i {
                    assert(tok =~= Seq::<char>::empty());
                }
            }
            if keep {
                let s = string_of_range(v, i, t);
                let ghost prev = string_views(out@);
                out.push(s);
                assert(string_views(out@) =~= prev + seq![tok]);
            }
            i = j;
        }
    }
    assert(v@.subrange(hi as int, hi as int) =~= Seq::<char>::empty());
    out
}

/// Add the offered aliases of a finished block to `result`.
fn emit_block(aliases: &Vec<String>, result: &mut Vec<String>)
    requires
        strictly_sorted(string_views(old(result)@)),
    ensures
        strictly_sorted(string_views(final(result)@)),
        string_views(final(result)@).to_set() == string_views(old(result)@).to_set().union(
            block_hosts(string_views(aliases@).to_set()),
        ),
{
    let ghost old_set = string_views(result@).to_set();
    let ghost avs = string_views(aliases@);
    let mut k: usize = 0;
    while k < aliases.len()
        invariant
            k <= aliases.len(),
            avs == string_views(aliases@),
            strictly_sorted(string_views(result@)),
            string_views(result@).to_set() == old_set.union(
                block_hosts(avs.take(k as int).to_set()),
            ),
        decreases aliases.len() - k,
    {
        let ghost before = string_views(result@).to_set();
        let keep = !is_git_provider_chars(&chars_of(aliases[k].as_str()));
        if keep {
            insert_sorted(result, aliases[k].clone());
        }
        proof {
            let after = string_views(result@).to_set();
            assert(avs[k as int] == aliases@[k as int]@);
            assert forall|e: Seq<char>| avs.take(k + 1).to_set().contains(e) <==> (avs.take(
                k as int,
            ).to_set().contains(e) || e == avs[k as int]) by {
                if avs.take(k + 1).contains(e) {
                    let i = choose|i: int| 0 <= i < k + 1 && #[trigger] avs.take(k + 1)[i] == e;
                    if i < k {
                        assert(avs.take(k as int)[i] == e);
                    }
                }
                if avs.take(k as int).contains(e) {
                    let i = choose|i: int| 0 <= i < k && #[trigger] avs.take(k as int)[i] == e;
                    assert(avs.take(k + 1)[i] == e);
                }
                if e == avs[k as int] {
                    assert(avs.take(k + 1)[k as int] == e);
                }
            }
            assert forall|e: Seq<char>| #[trigger] after.contains(e) <==> old_set.union(
                block_hosts(avs.take(k + 1).to_set()),
            ).contains(e) by {
                assert(before.contains(e) <==> old_set.union(
                    block_hosts(avs.take(k as int).to_set()),
                ).contains(e));
            }
            assert(after =~= old_set.union(block_hosts(avs.take(k + 1).to_set())));
        }
        k += 1;
    }
    assert(avs.take(aliases.len() as int) =~= avs);
}

} // verus!
