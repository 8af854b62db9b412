//! SSH host alias parser for onboarding step 3 (git configuration).
//!
//! Reads the text of an `~/.ssh/config` file and returns the `Host` aliases
//! that are suitable for display as git account selectors.
//!
//! Each `Host` line starts a new block; its value is one or more
//! whitespace-separated patterns. Negations (`!`) and wildcards (`*`, `?`) are
//! not useful as display aliases and are dropped. A `HostName` line inside a
//! block gives the real host name; a block whose `HostName` is a known git
//! provider domain is dropped whole, and so is an alias that is itself such a
//! domain. Lines may use `Keyword value` or `Keyword=value`; a line with a
//! keyword and no value is skipped.

use vstd::prelude::*;

use crate::text::{
    ascii_lower, chars_of, contains_char, eq_ignore_ascii_case, eq_ignore_case_range, eq_range,
    find, find_char, first_word, first_word_range, insert_sorted, is_whitespace,
    lemma_word_len_bounds, lemma_words_step, line_at, lines, lower, skip_ws, strictly_sorted,
    string_of_range, string_views, to_ascii_lower, trim, trim_end_char, trim_end_matches,
    trim_range, trim_start, word_end, word_len, words, ends_in_newline, lemma_lines_concat,
    all_ws, is_word, lemma_find_after, lemma_single_line, lemma_trim_start_after_ws,
    lemma_word_len_of_word, lemma_word_trim,
};

verus! {

// ---------------------------------------------------------------------------
// Meaning
// ---------------------------------------------------------------------------

/// Whether `host` is a known git provider domain, compared case-insensitively
/// for ASCII letters.
pub open spec fn is_git_provider(host: Seq<char>) -> bool {
    let h = lower(host);
    h == "bitbucket.org"@ || h == "codeberg.org"@ || h == "dev.azure.com"@ || h == "gitea.com"@
        || h == "gitee.com"@ || h == "github.com"@ || h == "gist.github.com"@ || h
        == "gitlab.com"@ || h == "git.sr.ht"@ || h == "sourcehut.org"@ || h
        == "chromium.googlesource.com"@
}

/// A config line split into keyword and rest: at the first `=` when the text
/// before it is not blank, otherwise at the first whitespace character; both
/// parts trimmed. `None` when the keyword is empty.
pub open spec fn keyword_and_rest(line: Seq<char>) -> Option<(Seq<char>, Seq<char>)> {
    let e = find(line, '=');
    if e < line.len() && trim(line.take(e as int)).len() > 0 {
        Some((trim(line.take(e as int)), trim(line.skip(e + 1int))))
    } else {
        let k = word_len(line);
        let kw = trim(line.take(k as int));
        if kw.len() == 0 {
            None
        } else if k < line.len() {
            Some((kw, trim(line.skip(k + 1int))))
        } else {
            Some((kw, seq![]))
        }
    }
}

/// A config line split into keyword and value, per `keyword_and_rest`;
/// `None` for a line that has no value (a keyword alone) or is empty.
pub open spec fn keyword_value(line: Seq<char>) -> Option<(Seq<char>, Seq<char>)> {
    match keyword_and_rest(line) {
        Some((kw, value)) => if value.len() > 0 {
            Some((kw, value))
        } else {
            None
        },
        None => None,
    }
}

/// The alias patterns of a `Host` value: each word with its trailing
/// backslashes removed, empty results dropped.
pub open spec fn alias_patterns(ws: Seq<Seq<char>>) -> Seq<Seq<char>>
    decreases ws.len(),
{
    if ws.len() == 0 {
        seq![]
    } else {
        let t = trim_end_matches(ws[0], '\\');
        (if t.len() > 0 {
            seq![t]
        } else {
            seq![]
        }) + alias_patterns(ws.drop_first())
    }
}

/// An alias that can be offered: no wildcard, no negation, not a bare git
/// provider domain.
pub open spec fn displayable_alias(a: Seq<char>) -> bool {
    &&& !a.contains('*')
    &&& !a.contains('?')
    &&& !(a.len() > 0 && a[0] == '!')
    &&& !is_git_provider(a)
}

/// `result` after committing a block with `aliases` and `hostname`.
pub open spec fn commit_block(
    aliases: Seq<Seq<char>>,
    hostname: Option<Seq<char>>,
    result: Set<Seq<char>>,
) -> Set<Seq<char>> {
    if aliases.len() == 0 {
        result
    } else if hostname matches Some(hn) && is_git_provider(hn) {
        result
    } else {
        result.union(aliases.to_set().filter(|a: Seq<char>| displayable_alias(a)))
    }
}

/// Scanner state: aliases committed so far, the current block's aliases and
/// its `HostName`.
pub type HostScan = (Set<Seq<char>>, Seq<Seq<char>>, Option<Seq<char>>);

/// The scanner state after one raw line.
pub open spec fn scan_line(st: HostScan, raw: Seq<char>) -> HostScan {
    let line = trim_start(raw);
    if line.len() == 0 || line[0] == '#' {
        st
    } else {
        match keyword_value(line) {
            None => st,
            Some((kw, value)) => if eq_ignore_ascii_case(kw, "Host"@) {
                (commit_block(st.1, st.2, st.0), alias_patterns(words(value)), None)
            } else if eq_ignore_ascii_case(kw, "HostName"@) {
                (st.0, st.1, first_word(value))
            } else {
                st
            },
        }
    }
}

/// The scanner state after the lines `ls`, in order.
pub open spec fn scan_lines(ls: Seq<Seq<char>>, st: HostScan) -> HostScan
    decreases ls.len(),
{
    if ls.len() == 0 {
        st
    } else {
        scan_lines(ls.drop_first(), scan_line(st, ls[0]))
    }
}

/// The aliases that `config` offers as git accounts.
pub open spec fn ssh_host_aliases(config: Seq<char>) -> Set<Seq<char>> {
    let st = scan_lines(lines(config), (Set::empty(), seq![], None));
    commit_block(st.1, st.2, st.0)
}

pub open spec fn opt_view(o: Option<String>) -> Option<Seq<char>> {
    match o {
        Some(s) => Some(s@),
        None => None,
    }
}

// ---------------------------------------------------------------------------
// Laws
// ---------------------------------------------------------------------------

/// Every committed alias is displayable.
pub open spec fn all_displayable(result: Set<Seq<char>>) -> bool {
    forall|a: Seq<char>| #[trigger] result.contains(a) ==> displayable_alias(a)
}

proof fn lemma_commit_keeps_displayable(
    aliases: Seq<Seq<char>>,
    hostname: Option<Seq<char>>,
    result: Set<Seq<char>>,
)
    requires
        all_displayable(result),
    ensures
        all_displayable(commit_block(aliases, hostname, result)),
{
}

proof fn lemma_scan_keeps_displayable(ls: Seq<Seq<char>>, st: HostScan)
    requires
        all_displayable(st.0),
    ensures
        all_displayable(scan_lines(ls, st).0),
    decreases ls.len(),
{
    if ls.len() > 0 {
        lemma_commit_keeps_displayable(st.1, st.2, st.0);
        lemma_scan_keeps_displayable(ls.drop_first(), scan_line(st, ls[0]));
    }
}

/// No alias that `parse_ssh_hosts` offers is a wildcard pattern (`*`, `?`),
/// a negation (`!`), or a bare git provider domain.
pub proof fn lemma_offered_aliases_displayable(config: Seq<char>, a: Seq<char>)
    requires
        ssh_host_aliases(config).contains(a),
    ensures
        !a.contains('*'),
        !a.contains('?'),
        !(a.len() > 0 && a[0] == '!'),
        !is_git_provider(a),
{
    let st = scan_lines(lines(config), (Set::empty(), seq![], None));
    lemma_scan_keeps_displayable(lines(config), (Set::empty(), seq![], None));
    lemma_commit_keeps_displayable(st.1, st.2, st.0);
}

/// A raw line that starts a new `Host` block in the scan.
pub open spec fn is_host_line(raw: Seq<char>) -> bool {
    let line = trim_start(raw);
    &&& line.len() > 0
    &&& line[0] != '#'
    &&& match keyword_value(line) {
        Some((kw, _value)) => eq_ignore_ascii_case(kw, "Host"@),
        None => false,
    }
}

/// Lines of which none starts a `Host` block.
pub open spec fn no_host_lines(ls: Seq<Seq<char>>) -> bool {
    forall|i: int| 0 <= i < ls.len() ==> !is_host_line(#[trigger] ls[i])
}

/// The lines of one block: a `Host` line, then lines that start none.
pub open spec fn is_one_block(ls: Seq<Seq<char>>) -> bool {
    ls.len() > 0 && is_host_line(ls[0]) && no_host_lines(ls.drop_first())
}

proof fn lemma_scan_concat(x: Seq<Seq<char>>, y: Seq<Seq<char>>, st: HostScan)
    ensures
        scan_lines(x + y, st) == scan_lines(y, scan_lines(x, st)),
    decreases x.len(),
{
    if x.len() == 0 {
        assert(x + y =~= y);
    } else {
        assert((x + y).drop_first() =~= x.drop_first() + y);
        assert((x + y)[0] == x[0]);
        lemma_scan_concat(x.drop_first(), y, scan_line(st, x[0]));
    }
}

/// Lines that start no block leave the committed aliases and the block's
/// aliases alone; the `HostName` they leave depends on the one before only.
proof fn lemma_scan_no_host(ls: Seq<Seq<char>>, st: HostScan)
    requires
        no_host_lines(ls),
    ensures
        scan_lines(ls, st) == (st.0, st.1, scan_lines(ls, (Set::empty(), seq![], st.2)).2),
    decreases ls.len(),
{
    if ls.len() > 0 {
        let l = ls[0];
        assert(!is_host_line(l));
        let e: HostScan = (Set::empty(), seq![], st.2);
        let st2 = scan_line(st, l);
        let e2 = scan_line(e, l);
        assert(st2 == (st.0, st.1, e2.2));
        assert(e2 == (Set::<Seq<char>>::empty(), Seq::<Seq<char>>::empty(), e2.2));
        let rest = ls.drop_first();
        assert(no_host_lines(rest)) by {
            assert forall|i: int| 0 <= i < rest.len() implies !is_host_line(#[trigger] rest[i]) by {
                assert(rest[i] == ls[i + 1]);
            }
        }
        lemma_scan_no_host(rest, st2);
        lemma_scan_no_host(rest, e2);
    }
}

/// A block commits the block before it and leaves its own aliases and
/// `HostName`, which depend on its lines only.
proof fn lemma_scan_block(ls: Seq<Seq<char>>, st: HostScan)
    requires
        is_one_block(ls),
    ensures
        ({
            let own = scan_lines(ls, (Set::empty(), seq![], None));
            scan_lines(ls, st) == (commit_block(st.1, st.2, st.0), own.1, own.2)
        }),
{
    let l = ls[0];
    let e: HostScan = (Set::empty(), seq![], None);
    let s1 = scan_line(st, l);
    let e1 = scan_line(e, l);
    assert(s1.0 == commit_block(st.1, st.2, st.0));
    assert(e1.0 == Set::<Seq<char>>::empty());
    assert(s1.1 == e1.1 && s1.2 == e1.2);
    lemma_scan_no_host(ls.drop_first(), s1);
    lemma_scan_no_host(ls.drop_first(), e1);
}

/// Committing a block adds what the block offers.
proof fn lemma_commit_union(aliases: Seq<Seq<char>>, hostname: Option<Seq<char>>, result: Set<Seq<char>>)
    ensures
        commit_block(aliases, hostname, result) == result.union(
            commit_block(aliases, hostname, Set::empty()),
        ),
{
    assert(commit_block(aliases, hostname, result) =~= result.union(
        commit_block(aliases, hostname, Set::empty()),
    ));
}

/// The aliases offered do not depend on the order of the blocks: two
/// blocks after a header without `Host` lines, swapped, offer the same
/// aliases (each text made of whole lines).
pub proof fn lemma_block_order_irrelevant(h: Seq<char>, b1: Seq<char>, b2: Seq<char>)
    requires
        ends_in_newline(h),
        ends_in_newline(b1),
        ends_in_newline(b2),
        no_host_lines(lines(h)),
        is_one_block(lines(b1)),
        is_one_block(lines(b2)),
    ensures
        ssh_host_aliases(h + b1 + b2) == ssh_host_aliases(h + b2 + b1),
{
    let lh = lines(h);
    let l1 = lines(b1);
    let l2 = lines(b2);
    assert(ends_in_newline(h + b1)) by {
        if b1.len() > 0 {
            assert((h + b1).last() == b1.last());
        } else {
            assert(h + b1 =~= h);
        }
    }
    assert(ends_in_newline(h + b2)) by {
        if b2.len() > 0 {
            assert((h + b2).last() == b2.last());
        } else {
            assert(h + b2 =~= h);
        }
    }
    lemma_lines_concat(h, b1);
    lemma_lines_concat(h + b1, b2);
    lemma_lines_concat(h, b2);
    lemma_lines_concat(h + b2, b1);
    let init: HostScan = (Set::empty(), seq![], None);
    lemma_scan_no_host(lh, init);
    let hh = scan_lines(lh, init).2;
    let start: HostScan = (Set::empty(), seq![], hh);
    assert(scan_lines(lh, init) == start);
    let own1 = scan_lines(l1, init);
    let own2 = scan_lines(l2, init);
    lemma_scan_concat(lh + l1, l2, init);
    lemma_scan_concat(lh, l1, init);
    lemma_scan_block(l1, start);
    lemma_scan_block(l2, (Set::empty(), own1.1, own1.2));
    lemma_scan_concat(lh + l2, l1, init);
    lemma_scan_concat(lh, l2, init);
    lemma_scan_block(l2, start);
    lemma_scan_block(l1, (Set::empty(), own2.1, own2.2));
    assert(commit_block(start.1, start.2, start.0) == Set::<Seq<char>>::empty());
    let c1 = commit_block(own1.1, own1.2, Set::empty());
    let c2 = commit_block(own2.1, own2.2, Set::empty());
    lemma_commit_union(own2.1, own2.2, c1);
    lemma_commit_union(own1.1, own1.2, c2);
    assert(c1.union(c2) =~= c2.union(c1));
}

/// Whether `lowered` is one of the eleven git provider domains, written out.
pub open spec fn listed_provider_domain(lowered: Seq<char>) -> bool {
    ||| lowered == "bitbucket.org"@
    ||| lowered == "codeberg.org"@
    ||| lowered == "dev.azure.com"@
    ||| lowered == "gitea.com"@
    ||| lowered == "gitee.com"@
    ||| lowered == "github.com"@
    ||| lowered == "gist.github.com"@
    ||| lowered == "gitlab.com"@
    ||| lowered == "git.sr.ht"@
    ||| lowered == "sourcehut.org"@
    ||| lowered == "chromium.googlesource.com"@
}

/// A word without `=`: a single value in a config line.
pub open spec fn is_plain_word(w: Seq<char>) -> bool {
    is_word(w) && !w.contains('=')
}

/// A line `kw value` of two plain words splits into them.
pub proof fn lemma_keyword_line(kw: Seq<char>, value: Seq<char>)
    requires
        is_plain_word(kw),
        is_plain_word(value),
    ensures
        keyword_value(kw + seq![' '] + value) == Some((kw, value)),
{
    let line = kw + seq![' '] + value;
    assert(!line.contains('=')) by {
        if line.contains('=') {
            let i = choose|i: int| 0 <= i < line.len() && line[i] == '=';
            if i < kw.len() {
                assert(kw[i] == '=');
            } else if i > kw.len() {
                assert(value[i - kw.len() - 1] == '=');
            }
        }
    }
    lemma_find_after(line, Seq::<char>::empty(), '=');
    assert(line + Seq::<char>::empty() =~= line);
    assert(line =~= kw + (seq![' '] + value));
    lemma_word_len_of_word(kw, seq![' '] + value);
    assert(line.take(kw.len() as int) =~= kw);
    assert(line.skip(kw.len() + 1int) =~= value);
    lemma_word_trim(kw);
    lemma_word_trim(value);
}

/// A block whose `HostName` is a git provider domain (in any ASCII case) is
/// dropped whole: `Host a` with `HostName h` offers nothing.
pub proof fn lemma_provider_hostname_drops_block(a: Seq<char>, h: Seq<char>)
    requires
        is_plain_word(a),
        is_plain_word(h),
        listed_provider_domain(lower(h)),
    ensures
        ssh_host_aliases("Host "@ + a + "\n  HostName "@ + h + "\n"@) == Set::<Seq<char>>::empty(),
{
    reveal_strlit("Host ");
    reveal_strlit("\n  HostName ");
    reveal_strlit("\n");
    reveal_strlit("Host");
    reveal_strlit("HostName");
    let host: Seq<char> = "Host"@;
    let hostname: Seq<char> = "HostName"@;
    let line1 = host + seq![' '] + a;
    let line2 = seq![' ', ' '] + hostname + seq![' '] + h;
    let config = "Host "@ + a + "\n  HostName "@ + h + "\n"@;
    assert(config =~= (line1 + seq!['\n']) + (line2 + seq!['\n']));
    assert(is_plain_word(host)) by {
        assert(!host.contains('=')) by {
            if host.contains('=') {
                let i = choose|i: int| 0 <= i < host.len() && host[i] == '=';
            }
        }
    }
    assert(is_plain_word(hostname)) by {
        assert(!hostname.contains('=')) by {
            if hostname.contains('=') {
                let i = choose|i: int| 0 <= i < hostname.len() && hostname[i] == '=';
            }
        }
    }
    assert(!line1.contains('\n')) by {
        if line1.contains('\n') {
            let i = choose|i: int| 0 <= i < line1.len() && line1[i] == '\n';
            if i > host.len() {
                assert(a[i - host.len() - 1] == '\n');
            }
        }
    }
    assert(!line2.contains('\n')) by {
        if line2.contains('\n') {
            let i = choose|i: int| 0 <= i < line2.len() && line2[i] == '\n';
            if i > hostname.len() + 2 {
                assert(h[i - hostname.len() - 3] == '\n');
            }
        }
    }
    assert(line1.last() == a.last());
    assert(line2.last() == h.last());
    lemma_single_line(line1);
    lemma_single_line(line2);
    assert(ends_in_newline(line1 + seq!['\n']));
    lemma_lines_concat(line1 + seq!['\n'], line2 + seq!['\n']);
    let ls = lines(config);
    assert(ls =~= seq![line1, line2]);
    // Line 1 starts the block of `a`.
    assert(trim_start(line1) == line1);
    lemma_keyword_line(host, a);
    lemma_word_trim(a);
    let st0: HostScan = (Set::empty(), seq![], None);
    let st1 = scan_line(st0, line1);
    assert(eq_ignore_ascii_case(host, "Host"@));
    assert(st1.2 == None::<Seq<char>>);
    // Line 2 sets its `HostName`.
    let rest2 = hostname + seq![' '] + h;
    assert(line2 =~= seq![' ', ' '] + rest2);
    assert(all_ws(seq![' ', ' ']));
    lemma_trim_start_after_ws(seq![' ', ' '], rest2);
    assert(trim_start(rest2) == rest2);
    lemma_keyword_line(hostname, h);
    lemma_word_trim(h);
    assert(!eq_ignore_ascii_case(hostname, "Host"@)) by {
        assert(lower(hostname).len() != lower(host).len());
    }
    assert(eq_ignore_ascii_case(hostname, "HostName"@));
    let st2 = scan_line(st1, line2);
    assert(st2 == (st1.0, st1.1, Some(h)));
    assert(ls.drop_first() =~= seq![line2]);
    assert(ls.drop_first().drop_first() =~= Seq::<Seq<char>>::empty());
    assert(ls[0] == line1);
    assert(ls.drop_first()[0] == line2);
    assert(scan_lines(ls.drop_first().drop_first(), st2) == st2);
    assert(scan_lines(ls.drop_first(), st1) == scan_lines(ls.drop_first().drop_first(), st2));
    assert(scan_lines(ls, st0) == scan_lines(ls.drop_first(), st1));
    assert(is_git_provider(h));
}

/// No alias that is a git provider domain (in any ASCII case) is ever
/// offered.
pub proof fn lemma_provider_alias_never_offered(config: Seq<char>, x: Seq<char>)
    requires
        listed_provider_domain(lower(x)),
    ensures
        !ssh_host_aliases(config).contains(x),
{
    if ssh_host_aliases(config).contains(x) {
        lemma_offered_aliases_displayable(config, x);
        assert(is_git_provider(x));
    }
}

// ---------------------------------------------------------------------------
// Parser
// ---------------------------------------------------------------------------

/// Parse the content of an `~/.ssh/config` file and return the `Host` aliases
/// suitable for display as git account selectors, sorted and without
/// duplicates.
///
/// Aliases are excluded when the alias is a known git provider domain (e.g.
/// `github.com`), contains a wildcard (`*` or `?`), is a negation (starts with
/// `!`), or when its block's `HostName` is a known git provider domain.
pub fn parse_ssh_hosts(config: &str) -> (hosts: Vec<String>)
    ensures
        strictly_sorted(string_views(hosts@)),
        string_views(hosts@).to_set() == ssh_host_aliases(config@),
{
    let v = chars_of(config);
    let n = v.len();
    let host_kw = chars_of("Host");
    let hostname_kw = chars_of("HostName");
    let mut result: Vec<String> = Vec::new();
    let mut aliases: Vec<String> = Vec::new();
    let mut hostname: Option<String> = None;
    let mut pos: usize = 0;
    let ghost init: HostScan = (Set::empty(), seq![], None);
    assert(v@.subrange(0, n as int) =~= v@);
    assert(string_views(result@).to_set() =~= Set::empty());
    assert(string_views(aliases@) =~= Seq::<Seq<char>>::empty());
    while pos < n
        invariant
            pos <= n == v.len(),
            v@ == config@,
            host_kw@ == "Host"@,
            hostname_kw@ == "HostName"@,
            strictly_sorted(string_views(result@)),
            scan_lines(lines(config@), init) == scan_lines(
                lines(v@.subrange(pos as int, n as int)),
                (string_views(result@).to_set(), string_views(aliases@), opt_view(hostname)),
            ),
        decreases n - pos,
    {
        let (line_hi, next) = line_at(&v, pos);
        let ghost before: HostScan = (
            string_views(result@).to_set(),
            string_views(aliases@),
            opt_view(hostname),
        );
        let ghost rest = lines(v@.subrange(next as int, n as int));
        let ghost line = v@.subrange(pos as int, line_hi as int);
        assert((seq![line] + rest).drop_first() =~= rest);
        scan_line_exec(&v, pos, line_hi, &host_kw, &hostname_kw, &mut result, &mut aliases, &mut hostname);
        pos = next;
    }
    assert(v@.subrange(n as int, n as int) =~= Seq::<char>::empty());
    commit_block_exec(&aliases, &hostname, &mut result);
    result
}

/// One line of the scan: `v[lo..hi]`.
fn scan_line_exec(
    v: &Vec<char>,
    lo: usize,
    hi: usize,
    host_kw: &Vec<char>,
    hostname_kw: &Vec<char>,
    result: &mut Vec<String>,
    aliases: &mut Vec<String>,
    hostname: &mut Option<String>,
)
    requires
        lo <= hi <= v.len(),
        host_kw@ == "Host"@,
        hostname_kw@ == "HostName"@,
        strictly_sorted(string_views(old(result)@)),
    ensures
        strictly_sorted(string_views(final(result)@)),
        (string_views(final(result)@).to_set(), string_views(final(aliases)@), opt_view(
            *final(hostname),
        )) == scan_line(
            (string_views(old(result)@).to_set(), string_views(old(aliases)@), opt_view(
                *old(hostname),
            )),
            v@.subrange(lo as int, hi as int),
        ),
{
    let ls = skip_ws(v, lo, hi);
    if ls == hi || v[ls] == '#' {
        return;
    }
    let kv = keyword_value_exec(v, ls, hi);
    match kv {
        None => {},
        Some((k0, k1, v0, v1)) => {
            if eq_ignore_case_range(v, k0, k1, host_kw) {
                commit_block_exec(aliases, hostname, result);
                *aliases = alias_patterns_exec(v, v0, v1);
                *hostname = None;
            } else if eq_ignore_case_range(v, k0, k1, hostname_kw) {
                match first_word_range(v, v0, v1) {
                    None => {
                        *hostname = None;
                    },
                    Some((a, b)) => {
                        *hostname = Some(string_of_range(v, a, b));
                    },
                }
            }
        },
    }
}

/// Bounds of keyword and value of the line `v[lo..hi]`, per `keyword_value`.
fn keyword_value_exec(v: &Vec<char>, lo: usize, hi: usize) -> (r: Option<
    (usize, usize, usize, usize),
>)
    requires
        lo <= hi <= v.len(),
    ensures
        match (r, keyword_value(v@.subrange(lo as int, hi as int))) {
            (None, None) => true,
            (Some((k0, k1, v0, v1)), Some((kw, value))) => k0 <= k1 <= v.len() && v0 <= v1
                <= v.len() && v@.subrange(k0 as int, k1 as int) == kw && v@.subrange(
                v0 as int,
                v1 as int,
            ) == value,
            _ => false,
        },
{
    match keyword_rest_exec(v, lo, hi) {
        Some((k0, k1, v0, v1)) => if v0 < v1 {
            Some((k0, k1, v0, v1))
        } else {
            None
        },
        None => None,
    }
}

/// Bounds of keyword and rest of the line `v[lo..hi]`, per `keyword_and_rest`.
fn keyword_rest_exec(v: &Vec<char>, lo: usize, hi: usize) -> (r: Option<
    (usize, usize, usize, usize),
>)
    requires
        lo <= hi <= v.len(),
    ensures
        match (r, keyword_and_rest(v@.subrange(lo as int, hi as int))) {
            (None, None) => true,
            (Some((k0, k1, v0, v1)), Some((kw, value))) => k0 <= k1 <= v.len() && v0 <= v1
                <= v.len() && v@.subrange(k0 as int, k1 as int) == kw && v@.subrange(
                v0 as int,
                v1 as int,
            ) == value,
            _ => false,
        },
{
    let ghost line = v@.subrange(lo as int, hi as int);
    let e = find_char(v, lo, hi, '=');
    if e < hi {
        assert(line.take(e - lo) =~= v@.subrange(lo as int, e as int));
        let (a, b) = trim_range(v, lo, e);
        if a < b {
            assert(line.skip(e - lo + 1) =~= v@.subrange(e + 1, hi as int));
            let (c, d) = trim_range(v, e + 1, hi);
            return Some((a, b, c, d));
        }
    }
    let k = word_end(v, lo, hi);
    assert(line.take(k - lo) =~= v@.subrange(lo as int, k as int));
    let (a, b) = trim_range(v, lo, k);
    if a == b {
        None
    } else if k < hi {
        assert(line.skip(k - lo + 1) =~= v@.subrange(k + 1, hi as int));
        let (c, d) = trim_range(v, k + 1, hi);
        Some((a, b, c, d))
    } else {
        assert(v@.subrange(hi as int, hi as int) =~= Seq::<char>::empty());
        Some((a, b, hi, hi))
    }
}

/// The alias patterns of the `Host` value `v[lo..hi]`.
fn alias_patterns_exec(v: &Vec<char>, lo: usize, hi: usize) -> (out: Vec<String>)
    requires
        lo <= hi <= v.len(),
    ensures
        string_views(out@) == alias_patterns(words(v@.subrange(lo as int, hi as int))),
{
    let mut out: Vec<String> = Vec::new();
    let mut i = lo;
    assert(string_views(out@) =~= Seq::<Seq<char>>::empty());
    while i < hi
        invariant
            lo <= i <= hi <= v.len(),
            alias_patterns(words(v@.subrange(lo as int, hi as int))) == string_views(out@)
                + alias_patterns(words(v@.subrange(i as int, hi as int))),
        decreases hi - i,
    {
        if is_whitespace(v[i]) {
            proof {
                lemma_words_step(v@, i as int, i as int, hi as int);
            }
            i += 1;
        } else {
            let j = word_end(v, i, hi);
            proof {
                assert(v@.subrange(i as int, hi as int)[0] == v@[i as int]);
                lemma_word_len_bounds(v@.subrange(i as int, hi as int));
                lemma_words_step(v@, i as int, j as int, hi as int);
                let ws = seq![v@.subrange(i as int, j as int)] + words(
                    v@.subrange(j as int, hi as int),
                );
                assert(ws[0] == v@.subrange(i as int, j as int));
                assert(ws.drop_first() =~= words(v@.subrange(j as int, hi as int)));
            }
            let t = trim_end_char(v, i, j, '\\');
            if t > i {
                let s = string_of_range(v, i, t);
                let ghost prev = string_views(out@);
                out.push(s);
                assert(string_views(out@) =~= prev + seq![v@.subrange(i as int, t as int)]);
            } else {
                assert(v@.subrange(i as int, t as int) =~= Seq::<char>::empty());
            }
            i = j;
        }
    }
    assert(v@.subrange(hi as int, hi as int) =~= Seq::<char>::empty());
    out
}

/// Whether the characters `w` name a known git provider domain.
pub(crate) fn is_git_provider_chars(w: &Vec<char>) -> (b: bool)
    ensures
        b == is_git_provider(w@),
{
    let mut l: Vec<char> = Vec::new();
    let mut k: usize = 0;
    while k < w.len()
        invariant
            k <= w.len(),
            l@ == lower(w@.take(k as int)),
        decreases w.len() - k,
    {
        l.push(to_ascii_lower(w[k]));
        assert(lower(w@.take(k + 1)) =~= lower(w@.take(k as int)).push(ascii_lower(w@[k as int])));
        k += 1;
    }
    assert(w@.take(w.len() as int) =~= w@);
    let n = l.len();
    assert(l@.subrange(0, n as int) =~= l@);
    eq_range(&l, 0, n, &chars_of("bitbucket.org")) || eq_range(&l, 0, n, &chars_of("codeberg.org"))
        || eq_range(&l, 0, n, &chars_of("dev.azure.com")) || eq_range(
        &l,
        0,
        n,
        &chars_of("gitea.com"),
    ) || eq_range(&l, 0, n, &chars_of("gitee.com")) || eq_range(&l, 0, n, &chars_of("github.com"))
        || eq_range(&l, 0, n, &chars_of("gist.github.com")) || eq_range(
        &l,
        0,
        n,
        &chars_of("gitlab.com"),
    ) || eq_range(&l, 0, n, &chars_of("git.sr.ht")) || eq_range(
        &l,
        0,
        n,
        &chars_of("sourcehut.org"),
    ) || eq_range(&l, 0, n, &chars_of("chromium.googlesource.com"))
}

/// Whether `a` may be offered as an alias.
fn displayable_alias_exec(a: &String) -> (b: bool)
    ensures
        b == displayable_alias(a@),
{
    let c = chars_of(a.as_str());
    let n = c.len();
    assert(c@.subrange(0, n as int) =~= c@);
    !contains_char(&c, 0, n, '*') && !contains_char(&c, 0, n, '?') && !(n > 0 && c[0] == '!')
        && !is_git_provider_chars(&c)
}

/// Commit the current block's aliases into `result`.
fn commit_block_exec(aliases: &Vec<String>, hostname: &Option<String>, result: &mut Vec<String>)
    requires
        strictly_sorted(string_views(old(result)@)),
    ensures
        strictly_sorted(string_views(final(result)@)),
        string_views(final(result)@).to_set() == commit_block(
            string_views(aliases@),
            opt_view(*hostname),
            string_views(old(result)@).to_set(),
        ),
{
    if aliases.len() == 0 {
        return;
    }
    match hostname {
        Some(hn) => {
            let hc = chars_of(hn.as_str());
            if is_git_provider_chars(&hc) {
                return;
            }
        },
        None => {},
    }
    let ghost old_set = string_views(result@).to_set();
    let ghost avs = string_views(aliases@);
    let mut k: usize = 0;
    while k < aliases.len()
        invariant
            k <= aliases.len(),
            avs == string_views(aliases@),
            strictly_sorted(string_views(result@)),
            string_views(result@).to_set() == old_set.union(
                avs.take(k as int).to_set().filter(|a: Seq<char>| displayable_alias(a)),
            ),
        decreases aliases.len() - k,
    {
        let ghost before = string_views(result@).to_set();
        let d = displayable_alias_exec(&aliases[k]);
        if d {
            insert_sorted(result, aliases[k].clone());
        }
        proof {
            let after = string_views(result@).to_set();
            assert(d ==> after == before.insert(avs[k as int]));
            assert(!d ==> after == before);
            let f = |a: Seq<char>| displayable_alias(a);
            assert forall|e: Seq<char>| avs.take(k + 1).to_set().contains(e) <==> (avs.take(
                k as int,
            ).to_set().contains(e) || e == avs[k as int]) by {
                if avs.take(k + 1).contains(e) {
                    let i = choose|i: int| 0 <= i < k + 1 && #[trigger] avs.take(k + 1)[i] == e;
                    if i < k {
                        assert(avs.take(k as int)[i] == e);
                    }
                }
                if avs.take(k as int).contains(e) {
                    let i = choose|i: int| 0 <= i < k && #[trigger] avs.take(k as int)[i] == e;
                    assert(avs.take(k + 1)[i] == e);
                }
                if e == avs[k as int] {
                    assert(avs.take(k + 1)[k as int] == e);
                }
            }
            assert(avs[k as int] == aliases@[k as int]@);
            assert forall|e: Seq<char>| #[trigger] after.contains(e) <==> old_set.union(
                avs.take(k + 1).to_set().filter(f),
            ).contains(e) by {
                assert(before.contains(e) <==> old_set.union(
                    avs.take(k as int).to_set().filter(f),
                ).contains(e));
            }
            assert(after =~= old_set.union(avs.take(k + 1).to_set().filter(f)));
        }
        k += 1;
    }
    assert(avs.take(aliases.len() as int) =~= avs);
}

} // verus!
