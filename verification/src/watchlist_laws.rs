//! What inspection does to the names of a certificate, said through the names themselves.
use vstd::prelude::*;

use crate::event::MetaView;
use crate::text::{
    begins_with, finishes_with, is_white_space, lemma_filter_members, lemma_sorted_texts, lowered,
    precedes, split_on, trimmed, without_trailing,
};
use crate::text_laws::{
    has_no_blank_ends, is_blank, law_split_cuts, law_trimmed, law_without_trailing,
    lemma_lowered_parts,
};
use crate::watchlist::{
    after_dots, built, dots, dotted_suffixes, file_load, file_names, implicated, inspected,
    label_count, law_under_at_label_boundary, lemma_implicated_finite, lemma_lowered_twice,
    listed_form, listed_forms, normal_host, optional_load, psl_name, trimmed_lines, under,
    under_any, FileRead, OutcomeView, ParsedView,
};

verus! {

/// Whether a listed name is in force and a name on a certificate is under it.
pub open spec fn hits(
    names: Set<Seq<char>>,
    suppress: Set<Seq<char>>,
    san: Seq<char>,
    d: Seq<char>,
) -> bool {
    names.contains(d) && !suppress.contains(d) && under(san, d)
}

/// The names that an outcome reports.
pub open spec fn reported(o: OutcomeView) -> Seq<Seq<char>> {
    match o.event {
        Some(ev) => ev.matched_domains,
        None => Seq::empty(),
    }
}

/// An event is complete: every name on the certificate that is under a listed and not
/// suppressed one is reported, and so is that listed one.
pub proof fn law_event_is_complete(
    names: Set<Seq<char>>,
    suppress: Set<Seq<char>>,
    sans: Seq<Seq<char>>,
    meta: MetaView,
    i: int,
    d: Seq<char>,
)
    requires
        0 <= i < sans.len(),
        hits(names, suppress, sans[i], d),
    ensures
        ({
            let r = inspected(names, suppress, sans, meta);
            &&& r.event is Some
            &&& r.event->0.matched_domains.contains(sans[i])
            &&& r.event->0.matched_keywords.contains(d)
        }),
{
    let live = names.difference(suppress);
    let keep = |s: Seq<char>| under_any(s, live);
    assert(live.contains(d));
    assert(under_any(sans[i], live));
    lemma_filter_members(sans, keep);
    assert(sans.contains(sans[i]));
    let found = implicated(sans, live);
    lemma_implicated_finite(sans, live);
    lemma_sorted_texts(found);
    assert(found.contains(d));
    let r = inspected(names, suppress, sans, meta);
    assert(r.event->0.matched_keywords.to_set().contains(d));
}

/// What an outcome is: an event exactly where some name is under a listed and not suppressed
/// one, and otherwise full suppression exactly where some name is under a listed one.
pub proof fn law_outcome_is_decided_by_hits(
    names: Set<Seq<char>>,
    suppress: Set<Seq<char>>,
    sans: Seq<Seq<char>>,
    meta: MetaView,
)
    ensures
        ({
            let r = inspected(names, suppress, sans, meta);
            &&& r.event is Some <==> exists|i: int, d: Seq<char>|
                0 <= i < sans.len() && #[trigger] hits(names, suppress, sans[i], d)
            &&& r.fully_suppressed <==> r.event is None && exists|i: int, d: Seq<char>|
                0 <= i < sans.len() && names.contains(d) && #[trigger] under(sans[i], d)
        }),
{
    let live = names.difference(suppress);
    let r = inspected(names, suppress, sans, meta);
    if r.event is Some {
        let i = choose|i: int| 0 <= i < sans.len() && under_any(#[trigger] sans[i], live);
        let d = choose|d: Seq<char>| #[trigger] live.contains(d) && under(sans[i], d);
        assert(hits(names, suppress, sans[i], d));
    }
    if exists|i: int, d: Seq<char>|
        0 <= i < sans.len() && #[trigger] hits(names, suppress, sans[i], d) {
        let (i, d) = choose|i: int, d: Seq<char>|
            0 <= i < sans.len() && #[trigger] hits(names, suppress, sans[i], d);
        law_event_is_complete(names, suppress, sans, meta, i, d);
    }
    if r.fully_suppressed {
        let i = choose|i: int| 0 <= i < sans.len() && under_any(#[trigger] sans[i], names);
        let d = choose|d: Seq<char>| #[trigger] names.contains(d) && under(sans[i], d);
        assert(under(sans[i], d));
    }
    if r.event is None && exists|i: int, d: Seq<char>|
        0 <= i < sans.len() && names.contains(d) && #[trigger] under(sans[i], d) {
        let (i, d) = choose|i: int, d: Seq<char>|
            0 <= i < sans.len() && names.contains(d) && #[trigger] under(sans[i], d);
        assert(under_any(sans[i], names));
    }
}

/// Names are judged one by one: the names that are reported of two lists, one after the
/// other, are those of the first and then those of the second.
pub proof fn law_names_are_judged_alone(
    names: Set<Seq<char>>,
    suppress: Set<Seq<char>>,
    a: Seq<Seq<char>>,
    b: Seq<Seq<char>>,
    meta: MetaView,
)
    ensures
        reported(inspected(names, suppress, a + b, meta)) == reported(
            inspected(names, suppress, a, meta),
        ) + reported(inspected(names, suppress, b, meta)),
{
    let live = names.difference(suppress);
    let keep = |s: Seq<char>| under_any(s, live);
    lemma_reported(names, suppress, a, meta);
    lemma_reported(names, suppress, b, meta);
    lemma_reported(names, suppress, a + b, meta);
    lemma_filter_parts(a, b, keep);
}

/// One name alone is reported exactly if it is under a listed and not suppressed one.
pub proof fn law_one_name(
    names: Set<Seq<char>>,
    suppress: Set<Seq<char>>,
    san: Seq<char>,
    meta: MetaView,
)
    ensures
        (exists|d: Seq<char>| #[trigger] hits(names, suppress, san, d)) ==> reported(
            inspected(names, suppress, seq![san], meta),
        ) == seq![san],
        !(exists|d: Seq<char>| #[trigger] hits(names, suppress, san, d)) ==> reported(
            inspected(names, suppress, seq![san], meta),
        ) == Seq::<Seq<char>>::empty(),
{
    let live = names.difference(suppress);
    let keep = |s: Seq<char>| under_any(s, live);
    let one = seq![san];
    lemma_reported(names, suppress, one, meta);
    assert(one.drop_last() =~= Seq::<Seq<char>>::empty());
    reveal(Seq::filter);
    reveal_with_fuel(Seq::filter, 3);
    if exists|d: Seq<char>| #[trigger] hits(names, suppress, san, d) {
        let d = choose|d: Seq<char>| #[trigger] hits(names, suppress, san, d);
        assert(live.contains(d));
        assert(keep(san));
        assert(one.filter(keep) =~= seq![san]);
    } else {
        if keep(san) {
            let d = choose|d: Seq<char>| #[trigger] live.contains(d) && under(san, d);
            assert(hits(names, suppress, san, d));
        }
        assert(one.filter(keep) =~= Seq::<Seq<char>>::empty());
    }
}

/// The listed names of an event are those that a name on the certificate hits, once each and
/// in ascending order.
pub proof fn law_keywords_are_the_hit_names(
    names: Set<Seq<char>>,
    suppress: Set<Seq<char>>,
    sans: Seq<Seq<char>>,
    meta: MetaView,
)
    requires
        inspected(names, suppress, sans, meta).event is Some,
    ensures
        ({
            let kw = inspected(names, suppress, sans, meta).event->0.matched_keywords;
            &&& forall|d: Seq<char>| #[trigger]
                kw.contains(d) <==> exists|i: int|
                    0 <= i < sans.len() && hits(names, suppress, #[trigger] sans[i], d)
            &&& forall|i: int, j: int|
                0 <= i < j < kw.len() ==> precedes(
                    #[trigger] kw[i],
                    #[trigger] kw[j],
                )
        }),
{
    let live = names.difference(suppress);
    let found = implicated(sans, live);
    let kw = inspected(names, suppress, sans, meta).event->0.matched_keywords;
    lemma_implicated_finite(sans, live);
    lemma_sorted_texts(found);
    assert forall|d: Seq<char>| #[trigger] kw.contains(d) <==> exists|i: int|
        0 <= i < sans.len() && hits(names, suppress, #[trigger] sans[i], d) by {
        assert(kw.to_set().contains(d) == kw.contains(d));
        if kw.contains(d) {
            let i = choose|i: int| 0 <= i < sans.len() && under(#[trigger] sans[i], d);
            assert(hits(names, suppress, sans[i], d));
        }
        if exists|i: int| 0 <= i < sans.len() && hits(names, suppress, #[trigger] sans[i], d) {
            let i = choose|i: int|
                0 <= i < sans.len() && hits(names, suppress, #[trigger] sans[i], d);
            assert(under(sans[i], d));
            assert(found.contains(d));
        }
    }
}

/// An event carries the leaf's metadata as it came in, and the number of all names.
pub proof fn law_event_carries_the_leaf(
    names: Set<Seq<char>>,
    suppress: Set<Seq<char>>,
    sans: Seq<Seq<char>>,
    meta: MetaView,
)
    requires
        inspected(names, suppress, sans, meta).event is Some,
    ensures
        ({
            let ev = inspected(names, suppress, sans, meta).event->0;
            &&& ev.seen == meta.seen
            &&& ev.source == meta.source
            &&& ev.fingerprint == meta.fingerprint
            &&& sans.len() <= u32::MAX ==> ev.san_count == sans.len()
            &&& sans.len() > u32::MAX ==> ev.san_count == u32::MAX
        }),
{
}

proof fn lemma_reported(
    names: Set<Seq<char>>,
    suppress: Set<Seq<char>>,
    sans: Seq<Seq<char>>,
    meta: MetaView,
)
    ensures
        ({
            let live = names.difference(suppress);
            reported(inspected(names, suppress, sans, meta)) == sans.filter(
                |s: Seq<char>| under_any(s, live),
            )
        }),
{
    let live = names.difference(suppress);
    let keep = |s: Seq<char>| under_any(s, live);
    let r = inspected(names, suppress, sans, meta);
    if r.event is None {
        lemma_filter_members(sans, keep);
        let kept = sans.filter(keep);
        if kept.len() > 0 {
            assert(kept.contains(kept[0]));
            let i = sans.index_of(kept[0]);
            assert(under_any(sans[i], live));
        }
        assert(kept =~= Seq::<Seq<char>>::empty());
    }
}

/// Filtering two lists, one after the other, is filtering each.
pub proof fn lemma_filter_parts(
    a: Seq<Seq<char>>,
    b: Seq<Seq<char>>,
    keep: spec_fn(Seq<char>) -> bool,
)
    ensures
        (a + b).filter(keep) == a.filter(keep) + b.filter(keep),
    decreases b.len(),
{
    reveal(Seq::filter);
    if b.len() == 0 {
        assert(a + b =~= a);
        assert(a.filter(keep) + b.filter(keep) =~= a.filter(keep));
    } else {
        lemma_filter_parts(a, b.drop_last(), keep);
        assert((a + b).drop_last() =~= a + b.drop_last());
        assert((a + b).last() == b.last());
        assert((a + b).filter(keep) =~= a.filter(keep) + b.filter(keep));
    }
}

/// A name is under a listed one exactly where its bare host is that name or ends in a dot
/// and that name.
pub proof fn law_under_is_a_suffix(raw: Seq<char>, d: Seq<char>)
    ensures
        under(raw, d) <==> normal_host(raw) is Some && (normal_host(raw)->0 == d || finishes_with(
            normal_host(raw)->0,
            seq!['.'] + d,
        )),
{
    if under(raw, d) {
        law_under_at_label_boundary(raw, d);
    }
    if normal_host(raw) is Some {
        let host = normal_host(raw)->0;
        if host == d {
            assert(dotted_suffixes(host)[0] == host);
        } else if finishes_with(host, seq!['.'] + d) {
            let tail = seq!['.'] + d;
            assert(host.skip(host.len() - tail.len())[0] == tail[0]);
            lemma_dot_gives_suffix(host, host.len() - tail.len());
            assert(host.skip(host.len() - tail.len() + 1) =~= d) by {
                assert(host.skip(host.len() - tail.len()).skip(1) =~= tail.skip(1));
                assert(tail.skip(1) =~= d);
                assert(host.skip(host.len() - tail.len()).skip(1) =~= host.skip(
                    host.len() - tail.len() + 1,
                ));
            }
            let k = after_dots(host).index_of(d);
            assert(dotted_suffixes(host)[k + 1] == d);
        }
    }
}

proof fn lemma_dot_gives_suffix(s: Seq<char>, k: int)
    requires
        0 <= k < s.len(),
        s[k] == '.',
    ensures
        after_dots(s).contains(s.skip(k + 1)),
    decreases s.len(),
{
    let rest = s.drop_first();
    if k == 0 {
        assert(s.skip(1) =~= rest);
        assert(after_dots(s)[0] == rest);
    } else {
        lemma_dot_gives_suffix(rest, k - 1);
        assert(rest.skip(k) =~= s.skip(k + 1));
        let j = after_dots(rest).index_of(s.skip(k + 1));
        if s[0] == '.' {
            assert(after_dots(s)[j + 1] == s.skip(k + 1));
        } else {
            assert(after_dots(s)[j] == s.skip(k + 1));
        }
    }
}

/// Whether a text is a host as it stands: not empty, without whitespace or a dot at its end,
/// and without a wildcard before it.
pub open spec fn is_plain_host(s: Seq<char>) -> bool {
    &&& s.len() > 0
    &&& has_no_blank_ends(s)
    &&& s[s.len() - 1] != '.'
    &&& !(s.len() >= 2 && s[0] == '*' && s[1] == '.')
}

/// The bare form of a host, written in either case, with or without a wildcard before it,
/// dots behind it and whitespace around it, is that host in lower case.
pub proof fn law_bare_form(a: Seq<char>, wild: bool, host: Seq<char>, n: nat, b: Seq<char>)
    requires
        is_blank(a),
        is_blank(b),
        is_plain_host(host),
    ensures
        ({
            let star = if wild {
                seq!['*', '.']
            } else {
                Seq::<char>::empty()
            };
            normal_host(a + (star + host + dots(n)) + b) == Some(lowered(host))
        }),
{
    let star = if wild {
        seq!['*', '.']
    } else {
        Seq::<char>::empty()
    };
    let core = star + host;
    let t = core + dots(n);
    assert(t =~= star + host + dots(n));
    assert(core.len() > 0);
    assert(core[core.len() - 1] == host[host.len() - 1]);
    if n > 0 {
        assert(t[t.len() - 1] == '.');
    } else {
        assert(t =~= core);
    }
    assert(t[0] == core[0]);
    assert(has_no_blank_ends(core));
    assert(has_no_blank_ends(t));
    law_trimmed(a, t, b);
    law_without_trailing(core, '.', n);
    assert(dots(n) =~= Seq::new(n, |i: int| '.'));
    let none = Seq::<char>::empty();
    law_trimmed(none, core, none);
    assert(none + core + none =~= core);
    lemma_lowered_parts(star, host);
    reveal_strlit("*.");
    assert("*."@ =~= seq!['*', '.']);
    let lower = lowered(core);
    if wild {
        assert(lowered(star) =~= star);
        assert(lower.take(2) =~= "*."@);
        assert(lower.skip(2) =~= lowered(host));
    } else {
        assert(core =~= host);
        if begins_with(lower, "*."@) {
            assert(lower.take(2)[0] == '*' && lower.take(2)[1] == '.');
            assert(lower[0] == '*' && lower[1] == '.');
            assert(host[0] == '*' && host[1] == '.');
        }
    }
}

/// Whitespace between a host and the dots behind it does not count either.
pub proof fn law_bare_form_before_dots(
    a: Seq<char>,
    wild: bool,
    host: Seq<char>,
    gap: Seq<char>,
    n: nat,
    b: Seq<char>,
)
    requires
        is_blank(a),
        is_blank(gap),
        is_blank(b),
        is_plain_host(host),
        n > 0,
    ensures
        ({
            let star = if wild {
                seq!['*', '.']
            } else {
                Seq::<char>::empty()
            };
            normal_host(a + (star + host + gap + dots(n)) + b) == Some(lowered(host))
        }),
{
    let star = if wild {
        seq!['*', '.']
    } else {
        Seq::<char>::empty()
    };
    let none = Seq::<char>::empty();
    let core = star + host;
    let stem = core + gap;
    let t = stem + dots(n);
    assert(t =~= star + host + gap + dots(n));
    assert(core[core.len() - 1] == host[host.len() - 1]);
    assert(t[0] == core[0] && t[t.len() - 1] == '.');
    assert(has_no_blank_ends(core) && has_no_blank_ends(t));
    law_trimmed(a, t, b);
    assert(stem[stem.len() - 1] != '.') by {
        if gap.len() > 0 {
            assert(stem[stem.len() - 1] == gap[gap.len() - 1]);
            assert(is_white_space(gap[gap.len() - 1]));
        }
    }
    law_without_trailing(stem, '.', n);
    assert(dots(n) =~= Seq::new(n, |i: int| '.'));
    law_trimmed(none, core, gap);
    assert(none + core + gap =~= stem);
    law_bare_form(none, wild, host, 0, none);
    let plain = none + (core + dots(0)) + none;
    assert(plain =~= core);
    law_trimmed(none, core, none);
    law_without_trailing(core, '.', 0);
    assert(core + Seq::new(0, |i: int| '.') =~= core);
    assert(normal_host(core) == Some(lowered(host)));
}

/// Whitespace and dots alone are no name.
pub proof fn law_no_bare_form(a: Seq<char>, n: nat, b: Seq<char>)
    requires
        is_blank(a),
        is_blank(b),
    ensures
        normal_host(a + dots(n) + b) is None,
{
    let none = Seq::<char>::empty();
    law_trimmed(a, dots(n), b);
    law_without_trailing(none, '.', n);
    assert(none + Seq::new(n, |i: int| '.') =~= dots(n));
    law_trimmed(none, none, none);
    assert(none + none + none =~= none);
    reveal_strlit("*.");
    assert(lowered(none) =~= none);
}

/// The listed form of a host, by what the Public Suffix List says of it: none where it is
/// not a name; none where it is a public suffix of the registry, or a private one of at most
/// two labels; the host itself where it is a longer private suffix; and otherwise its
/// registrable part in lower case.
pub proof fn law_listed_form(raw: Seq<char>, p: ParsedView)
    ensures
        normal_host(raw) is None ==> listed_form(raw) is None,
        normal_host(raw) is Some && psl_name(normal_host(raw)->0) is None ==> listed_form(
            raw,
        ) is None,
        normal_host(raw) is Some && psl_name(normal_host(raw)->0) == Some(p) ==> ({
            let host = normal_host(raw)->0;
            let is_suffix = p.known_suffix && lowered(p.suffix) == host;
            &&& is_suffix && p.icann ==> listed_form(raw) is None
            &&& is_suffix && !p.icann && label_count(host) <= 2 ==> listed_form(raw) is None
            &&& is_suffix && !p.icann && label_count(host) > 2 ==> listed_form(raw) == Some(host)
            &&& !is_suffix && p.root is None ==> listed_form(raw) is None
            &&& !is_suffix && p.root is Some ==> listed_form(raw) == Some(lowered(p.root->0))
        }),
{
    if normal_host(raw) is Some {
        lemma_host_is_lower(raw);
    }
}

proof fn lemma_host_is_lower(raw: Seq<char>)
    requires
        normal_host(raw) is Some,
    ensures
        lowered(normal_host(raw)->0) == normal_host(raw)->0,
{
    let lower = lowered(trimmed(without_trailing(trimmed(raw), '.')));
    let host = normal_host(raw)->0;
    lemma_lowered_twice(trimmed(without_trailing(trimmed(raw), '.')));
    reveal_strlit("*.");
    assert(lowered(host) =~= host) by {
        assert forall|i: int| 0 <= i < host.len() implies lowered(host)[i] == host[i] by {
            let k = i + (lower.len() - host.len());
            assert(host[i] == lower[k]);
            assert(lowered(lower)[k] == lower[k]);
        }
    }
}

/// The labels of a host are what stands between its dots.
pub proof fn law_label_count(label: Seq<char>, rest: Seq<char>)
    requires
        label.len() > 0,
        !label.contains('.'),
    ensures
        label_count(label) == 1,
        label_count(label + seq!['.'] + rest) == 1 + label_count(rest),
{
    let keep = |l: Seq<char>| l.len() > 0;
    law_split_cuts(label, rest, '.');
    lemma_filter_parts(seq![label], split_on(rest, '.'), keep);
    reveal_with_fuel(Seq::filter, 3);
    assert(seq![label].drop_last() =~= Seq::<Seq<char>>::empty());
    assert(seq![label].filter(keep) =~= seq![label]);
}

/// Nothing between two dots, or before the first, is no label.
pub proof fn law_empty_labels_do_not_count(rest: Seq<char>)
    ensures
        label_count(Seq::empty()) == 0,
        label_count(seq!['.'] + rest) == label_count(rest),
{
    let none = Seq::<char>::empty();
    let keep = |l: Seq<char>| l.len() > 0;
    law_split_cuts(none, rest, '.');
    assert(none + seq!['.'] + rest =~= seq!['.'] + rest);
    lemma_filter_parts(seq![none], split_on(rest, '.'), keep);
    reveal_with_fuel(Seq::filter, 3);
    assert(seq![none].drop_last() =~= Seq::<Seq<char>>::empty());
    assert(seq![none].filter(keep) =~= Seq::<Seq<char>>::empty());
    assert(split_on(none, '.') == seq![none]);
}

/// The names of a watchlist file are read line by line: those of two texts with a line break
/// between them are those of the first and then those of the second.
pub proof fn law_file_is_read_by_lines(a: Seq<char>, b: Seq<char>)
    ensures
        file_names(a + seq!['\n'] + b) == file_names(a) + file_names(b),
{
    let keep = |l: Seq<char>| l.len() > 0 && l[0] != '#';
    law_split_cuts(a, b, '\n');
    assert(trimmed_lines(a + seq!['\n'] + b) =~= trimmed_lines(a) + trimmed_lines(b));
    lemma_filter_parts(trimmed_lines(a), trimmed_lines(b), keep);
}

/// A line of a watchlist file gives the name on it without the whitespace around it, and no
/// name where it is blank or begins with `#`.
pub proof fn law_one_line(a: Seq<char>, name: Seq<char>, b: Seq<char>)
    requires
        is_blank(a),
        is_blank(b),
        has_no_blank_ends(name),
        !(a + name + b).contains('\n'),
    ensures
        name.len() == 0 || name[0] == '#' ==> file_names(a + name + b) == Seq::<
            Seq<char>,
        >::empty(),
        name.len() > 0 && name[0] != '#' ==> file_names(a + name + b) == seq![name],
{
    let keep = |l: Seq<char>| l.len() > 0 && l[0] != '#';
    let line = a + name + b;
    law_split_cuts(line, line, '\n');
    law_trimmed(a, name, b);
    assert(trimmed_lines(line) =~= seq![name]);
    reveal_with_fuel(Seq::filter, 3);
    assert(seq![name].drop_last() =~= Seq::<Seq<char>>::empty());
    assert(file_names(line) =~= if keep(name) {
        seq![name]
    } else {
        Seq::empty()
    });
}

/// A file gives its names, a missing optional one or an empty path none, and every other
/// failure its path and reason; a watchlist needs its first file, and its second unless it is
/// missing, and fails as the first of them does.
pub proof fn law_files(path: Seq<char>, read: FileRead, suppress_path: Seq<char>, suppress: FileRead)
    ensures
        read is Text ==> file_load(path, read) == Ok::<Seq<Seq<char>>, Seq<char>>(
            file_names(read->Text_0@),
        ),
        read is Missing ==> file_load(path, read) == Err::<Seq<Seq<char>>, Seq<char>>(
            path + ": "@ + read->Missing_0@,
        ),
        read is Failed ==> file_load(path, read) == Err::<Seq<Seq<char>>, Seq<char>>(
            path + ": "@ + read->Failed_0@,
        ),
        path.len() == 0 || read is Missing ==> optional_load(path, read) == Ok::<
            Seq<Seq<char>>,
            Seq<char>,
        >(Seq::empty()),
        path.len() > 0 && !(read is Missing) ==> optional_load(path, read) == file_load(
            path,
            read,
        ),
        ({
            let names = file_load(path, read);
            let other = optional_load(suppress_path, suppress);
            &&& built(names, other) is Ok <==> names is Ok && other is Ok
            &&& built(names, other) is Ok ==> built(names, other)->Ok_0 == (
                listed_forms(names->Ok_0),
                listed_forms(other->Ok_0),
            )
            &&& names is Err ==> built(names, other)->Err_0 == names->Err_0
            &&& names is Ok && other is Err ==> built(names, other)->Err_0 == other->Err_0
        }),
{
}

/// A name is listed exactly where it is the listed form of an entry.
pub proof fn law_listed_forms(list: Seq<Seq<char>>, d: Seq<char>)
    ensures
        listed_forms(list).contains(d) <==> exists|i: int|
            0 <= i < list.len() && listed_form(#[trigger] list[i]) == Some(d),
{
}

} // verus!
