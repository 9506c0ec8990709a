//! The watermark's text comes back out of the content-stream program that
//! draws it.
use vstd::prelude::*;
use crate::extract::{
    clean, clean_light, extract_spec, fallback, hash_tag, hash_value, keep_nonempty,
    marker, no_extra, parse_spec, scan, show_op,
};
use crate::laws::{absent, free_of_noise, lemma_remove_absent};
use crate::text::{
    find_from, find_spec, first_n, is_ws, lemma_find_from_bounds, lines_acc, lines_of, occurs_at,
    remove_all, starts_with, strip_cr, strip_prefixes, trim,
};
use crate::watermark::{moves, program, split_acc, split_lines, watermark_text};

verus! {

proof fn lemma_occ_char(s: Seq<char>, p: Seq<char>, i: int, k: int)
    requires
        0 <= k < p.len(),
        0 <= i,
        i + k < s.len(),
        s[i + k] != p[k],
    ensures
        !occurs_at(s, p, i),
{
    if occurs_at(s, p, i) {
        assert(s.subrange(i, i + p.len())[k] == s[i + k]);
    }
}

proof fn lemma_find_first(s: Seq<char>, p: Seq<char>, j: int)
    requires
        p.len() > 0,
        0 <= j,
        occurs_at(s, p, j),
        forall|i: int| 0 <= i < j ==> !occurs_at(s, p, i),
    ensures
        find_spec(s, p) == Some(j),
{
    lemma_find_skip(s, p, j);
}

proof fn lemma_find_skip(s: Seq<char>, p: Seq<char>, j: int)
    requires
        p.len() > 0,
        0 <= j,
        forall|i: int| 0 <= i < j ==> !occurs_at(s, p, i),
    ensures
        find_from(s, p, 0) == find_from(s, p, j),
    decreases j,
{
    if j > 0 {
        lemma_find_skip(s, p, j - 1);
    }
}

proof fn lemma_find_none(s: Seq<char>, p: Seq<char>)
    requires
        p.len() > 0,
        forall|i: int| 0 <= i ==> !occurs_at(s, p, i),
    ensures
        find_spec(s, p) is None,
{
    lemma_find_from_bounds(s, p, 0);
}

/// No occurrence of `p` starts before `n` in `a + b` where `a` has `n`
/// characters: `remove_all` keeps `a` as it is.
proof fn lemma_remove_keep_prefix(a: Seq<char>, b: Seq<char>, p: Seq<char>)
    requires
        p.len() > 0,
        forall|i: int| 0 <= i < a.len() ==> !occurs_at(a + b, p, i),
    ensures
        remove_all(a + b, p) == a + remove_all(b, p),
    decreases a.len(),
{
    if a.len() > 0 {
        let s = a + b;
        assert(!occurs_at(s, p, 0));
        let a1 = a.subrange(1, a.len() as int);
        assert(s.subrange(1, s.len() as int) =~= a1 + b);
        assert forall|i: int| 0 <= i < a1.len() implies !occurs_at(a1 + b, p, i) by {
            assert(!occurs_at(s, p, i + 1));
            if occurs_at(a1 + b, p, i) {
                assert(s.subrange(i + 1, i + 1 + p.len()) =~= (a1 + b).subrange(i, i + p.len()));
            }
        }
        lemma_remove_keep_prefix(a1, b, p);
        if s.len() >= p.len() {
            assert(s.subrange(0, p.len() as int) != p);
            assert(seq![s[0]] + (a1 + remove_all(b, p)) =~= a + remove_all(b, p));
        } else {
            assert(b.len() < p.len());
            assert(s =~= a + remove_all(b, p));
        }
    } else {
        assert(a + b =~= b);
        assert(a + remove_all(b, p) =~= remove_all(b, p));
    }
}

proof fn lemma_trim_plain(s: Seq<char>)
    requires
        s.len() > 0,
        !is_ws(s[0]),
        !is_ws(s.last()),
    ensures
        trim(s) == s,
{
}

/// A field that the watermark carries back unchanged: non-empty, without
/// surrounding whitespace, without line breaks or parentheses, and holding
/// none of the operator fragments that cleaning removes.
pub open spec fn plain(x: Seq<char>) -> bool {
    x.len() > 0 && !is_ws(x[0]) && !is_ws(x.last()) && (forall|i: int|
        0 <= i < x.len() ==> x[i] != '\n' && x[i] != '\r' && x[i] != '(' && x[i] != ')')
        && free_of_noise(x)
}

/// `s` holds no line break.
pub open spec fn one_line(s: Seq<char>) -> bool {
    forall|i: int| 0 <= i < s.len() ==> s[i] != '\n'
}

proof fn lemma_split_line(a: Seq<char>, r: Seq<char>, cur: Seq<char>)
    requires
        one_line(a),
    ensures
        split_acc(a + seq!['\n'] + r, cur) == seq![cur + a] + split_acc(r, seq![]),
    decreases a.len(),
{
    let s = a + seq!['\n'] + r;
    if a.len() == 0 {
        assert(s.drop_first() =~= r);
        assert(cur + a =~= cur);
    } else {
        assert(s.drop_first() =~= a.drop_first() + seq!['\n'] + r);
        lemma_split_line(a.drop_first(), r, cur.push(a[0]));
        assert(cur.push(a[0]) + a.drop_first() =~= cur + a);
    }
}

proof fn lemma_split_last(a: Seq<char>, cur: Seq<char>)
    requires
        one_line(a),
    ensures
        split_acc(a, cur) == seq![cur + a],
    decreases a.len(),
{
    if a.len() == 0 {
        assert(cur + a =~= cur);
    } else {
        lemma_split_last(a.drop_first(), cur.push(a[0]));
        assert(cur.push(a[0]) + a.drop_first() =~= cur + a);
    }
}

proof fn lemma_lines_line(a: Seq<char>, r: Seq<char>, cur: Seq<char>)
    requires
        one_line(a),
    ensures
        lines_acc(a + seq!['\n'] + r, cur) == seq![strip_cr(cur + a)] + lines_acc(r, seq![]),
    decreases a.len(),
{
    let s = a + seq!['\n'] + r;
    if a.len() == 0 {
        assert(s.drop_first() =~= r);
        assert(cur + a =~= cur);
    } else {
        assert(s.drop_first() =~= a.drop_first() + seq!['\n'] + r);
        lemma_lines_line(a.drop_first(), r, cur.push(a[0]));
        assert(cur.push(a[0]) + a.drop_first() =~= cur + a);
    }
}

proof fn lemma_lines_last(a: Seq<char>, cur: Seq<char>)
    requires
        one_line(a),
        cur.len() + a.len() > 0,
    ensures
        lines_acc(a, cur) == seq![cur + a],
    decreases a.len(),
{
    if a.len() == 0 {
        assert(cur + a =~= cur);
    } else {
        lemma_lines_last(a.drop_first(), cur.push(a[0]));
        assert(cur.push(a[0]) + a.drop_first() =~= cur + a);
    }
}

proof fn lemma_keep_all(s: Seq<Seq<char>>)
    requires
        forall|i: int| 0 <= i < s.len() ==> s[i].len() > 0,
    ensures
        keep_nonempty(s) == s,
    decreases s.len(),
{
    if s.len() > 0 {
        lemma_keep_all(s.drop_last());
        assert(s.drop_last().push(s.last()) =~= s);
    }
}

/// The program text that follows the marker, for a block without extra note.
pub open spec fn after_marker3(n: Seq<char>, t: Seq<char>, h: Seq<char>) -> Seq<char> {
    n + ") Tj\n"@ + "0 -10 Td ("@ + t + ") Tj\n"@ + "0 500 Td ("@ + "Hash:"@ + h + ") Tj\n"@
        + "ET\nQ"@
}

proof fn lemma_scan3(n: Seq<char>, t: Seq<char>, h: Seq<char>)
    requires
        plain(n),
        plain(t),
        plain(h),
        absent(n, "0 "@),
    ensures
        scan(after_marker3(n, t, h), seq![]) == seq![hash_tag() + h],
{
    reveal_strlit(") Tj\n");
    reveal_strlit("0 -10 Td (");
    reveal_strlit("0 500 Td (");
    reveal_strlit("Hash:");
    reveal_strlit("ET\nQ");
    reveal_strlit("\nET\nQ");
    reveal_strlit("0 ");
    reveal_strlit(" Td (");
    reveal_strlit("(");
    reveal_strlit(") Tj");
    let r = after_marker3(n, t, h);
    let nl = n.len() as int;
    // the first "0 " is the one of the first downward move
    assert forall|i: int| 0 <= i < nl + 5 implies !occurs_at(r, "0 "@, i) by {
        if i < nl - 1 {
            assert(r.subrange(i, i + 2) =~= n.subrange(i, i + 2));
            assert(!occurs_at(n, "0 "@, i));
        } else if i == nl - 1 {
            assert(r[i + 1] == ')');
            lemma_occ_char(r, "0 "@, i, 1);
        } else {
            lemma_occ_char(r, "0 "@, i, 0);
        }
    }
    assert(r.subrange(nl + 5, nl + 7) =~= "0 "@);
    lemma_find_first(r, "0 "@, nl + 5);
    let tail = r.subrange(nl + 5, r.len() as int);
    assert forall|i: int| 0 <= i < 5 implies !occurs_at(tail, " Td ("@, i) by {
        if i == 1 {
            lemma_occ_char(tail, " Td ("@, i, 1);
        } else {
            lemma_occ_char(tail, " Td ("@, i, 0);
        }
    }
    assert(tail.subrange(5, 10) =~= " Td ("@);
    lemma_find_first(tail, " Td ("@, 5);
    let r2 = r.subrange(nl + 15, r.len() as int);
    let tl = t.len() as int;
    assert(r2 =~= t + ") Tj\n"@ + "0 500 Td ("@ + "Hash:"@ + h + ") Tj\n"@ + "ET\nQ"@);
    assert forall|i: int| 0 <= i < tl + 14 implies !occurs_at(r2, "("@, i) by {
        lemma_occ_char(r2, "("@, i, 0);
    }
    assert(r2.subrange(tl + 14, tl + 15) =~= "("@);
    lemma_find_first(r2, "("@, tl + 14);
    let hl = h.len() as int;
    let t2 = r2.subrange(tl + 14, r2.len() as int);
    assert forall|i: int| 0 <= i < hl + 6 implies !occurs_at(t2, show_op(), i) by {
        lemma_occ_char(t2, show_op(), i, 0);
    }
    assert(t2.subrange(hl + 6, hl + 10) =~= show_op());
    lemma_find_first(t2, show_op(), hl + 6);
    let body = r2.subrange(tl + 15, tl + 14 + hl + 6);
    assert(body =~= hash_tag() + h);
    lemma_trim_plain(body);
    let rest = r2.subrange(tl + 14 + hl + 10, r2.len() as int);
    assert(rest =~= "\nET\nQ"@);
    assert forall|i: int| 0 <= i implies !occurs_at(rest, "0 "@, i) by {
        if i < rest.len() {
            lemma_occ_char(rest, "0 "@, i, 0);
        }
    }
    lemma_find_none(rest, "0 "@);
    assert forall|i: int| 0 <= i implies !occurs_at(rest, "("@, i) by {
        if i < rest.len() {
            lemma_occ_char(rest, "("@, i, 0);
        }
    }
    lemma_find_none(rest, "("@);
    assert(scan(rest, seq![hash_tag() + h]) == seq![hash_tag() + h]);
}

proof fn lemma_absent_after(a: Seq<char>, h: Seq<char>, p: Seq<char>)
    requires
        forall|i: int| 0 <= i < a.len() ==> !occurs_at(a + h, p, i),
        absent(h, p),
    ensures
        absent(a + h, p),
{
    assert forall|i: int| !occurs_at(a + h, p, i) by {
        if i >= a.len() && occurs_at(a + h, p, i) {
            assert((a + h).subrange(i, i + p.len()) =~= h.subrange(i - a.len(), i - a.len() + p.len()));
            assert(occurs_at(h, p, i - a.len()));
        }
    }
}

/// The line-oriented reading of a line `lit + f + ") Tj"`, where `lit` holds
/// no `)` and neither does `f`.
proof fn lemma_drop_show(pre: Seq<char>)
    requires
        forall|i: int| 0 <= i < pre.len() ==> pre[i] != ')',
    ensures
        remove_all(pre + ") Tj"@, show_op()) == pre,
{
    reveal_strlit(") Tj");
    assert forall|i: int| 0 <= i < pre.len() implies !occurs_at(pre + ") Tj"@, show_op(), i) by {
        lemma_occ_char(pre + ") Tj"@, show_op(), i, 0);
    }
    lemma_remove_keep_prefix(pre, ") Tj"@, show_op());
    assert(") Tj"@.subrange(4, 4) =~= Seq::<char>::empty());
    assert(") Tj"@.subrange(0, 4) =~= show_op());
    assert(remove_all(Seq::<char>::empty(), show_op()) == Seq::<char>::empty());
    assert(remove_all(") Tj"@, show_op()) == remove_all(") Tj"@.subrange(4, 4), show_op()));
    assert(pre + Seq::<char>::empty() =~= pre);
}

proof fn lemma_fallback3(n: Seq<char>, t: Seq<char>, h: Seq<char>)
    requires
        plain(n),
        plain(t),
        plain(h),
    ensures
        fallback(after_marker3(n, t, h)) == seq![
            n + ") Tj"@,
            t,
            "0 500 Td ("@ + "Hash:"@ + h,
            "ET"@,
            "Q"@,
        ],
{
    reveal_strlit(") Tj\n");
    reveal_strlit(") Tj");
    reveal_strlit("0 -10 Td (");
    reveal_strlit("0 500 Td (");
    reveal_strlit("Hash:");
    reveal_strlit("ET\nQ");
    reveal_strlit("ET");
    reveal_strlit("Q");
    reveal_strlit("\n");
    let r = after_marker3(n, t, h);
    let nl = n.len() as int;
    assert forall|i: int| 0 <= i < nl + 4 implies !occurs_at(r, "\n"@, i) by {
        lemma_occ_char(r, "\n"@, i, 0);
    }
    assert(r.subrange(nl + 4, nl + 5) =~= "\n"@);
    lemma_find_first(r, "\n"@, nl + 4);
    let name = r.subrange(0, nl + 4);
    assert(name =~= n + ") Tj"@);
    lemma_trim_plain(name);
    assert(name.len() != show_op().len());
    let x1 = "0 -10 Td ("@ + t + ") Tj"@;
    let x2 = "0 500 Td ("@ + "Hash:"@ + h + ") Tj"@;
    let rest = r.subrange(nl + 5, r.len() as int);
    let r1 = x2 + seq!['\n'] + ("ET"@ + seq!['\n'] + "Q"@);
    assert(rest =~= x1 + seq!['\n'] + r1);
    assert(one_line(x1));
    assert(one_line(x2));
    assert(one_line("ET"@));
    assert(one_line("Q"@));
    lemma_lines_line(x1, r1, seq![]);
    lemma_lines_line(x2, "ET"@ + seq!['\n'] + "Q"@, seq![]);
    lemma_lines_line("ET"@, "Q"@, seq![]);
    lemma_lines_last("Q"@, seq![]);
    assert(Seq::<char>::empty() + x1 =~= x1);
    assert(Seq::<char>::empty() + x2 =~= x2);
    assert(Seq::<char>::empty() + "ET"@ =~= "ET"@);
    assert(Seq::<char>::empty() + "Q"@ =~= "Q"@);
    let ls = lines_of(rest);
    assert(ls =~= seq![x1, x2, "ET"@, "Q"@]);
    // the first downward move and the show operator come off the first line
    let p1 = "0 -10 Td ("@ + t;
    lemma_drop_show(p1);
    assert(x1 =~= p1 + ") Tj"@);
    assert(p1.subrange(0, 10) =~= "0 -10 Td ("@);
    assert(p1.subrange(10, p1.len() as int) =~= t);
    lemma_remove_absent(t, "0 -10 Td ("@);
    lemma_trim_plain(t);
    assert(clean_light(x1) == t);
    // the upward move stays on the hash line
    let p2 = "0 500 Td ("@ + "Hash:"@ + h;
    lemma_drop_show(p2);
    assert(x2 =~= p2 + ") Tj"@);
    let lit = "0 500 Td ("@ + "Hash:"@;
    assert(p2 =~= lit + h);
    assert forall|i: int| 0 <= i < lit.len() implies !occurs_at(lit + h, "0 -10 Td ("@, i) by {
        if i == 0 || i == 4 {
            lemma_occ_char(lit + h, "0 -10 Td ("@, i, 2);
        } else if i == 3 {
            lemma_occ_char(lit + h, "0 -10 Td ("@, i, 1);
        } else {
            lemma_occ_char(lit + h, "0 -10 Td ("@, i, 0);
        }
    }
    lemma_absent_after(lit, h, "0 -10 Td ("@);
    lemma_remove_absent(p2, "0 -10 Td ("@);
    lemma_trim_plain(p2);
    assert(clean_light(x2) == p2);
    assert(clean_light("ET"@) == "ET"@);
    assert(clean_light("Q"@) == "Q"@);
    let cl = first_n(ls, 4).map_values(|l: Seq<char>| clean_light(l));
    assert(cl =~= seq![t, p2, "ET"@, "Q"@]);
    lemma_keep_all(cl);
    assert(seq![name] + cl =~= seq![n + ") Tj"@, t, p2, "ET"@, "Q"@]);
}

proof fn lemma_absent_by_char(s: Seq<char>, p: Seq<char>)
    requires
        p.len() > 0,
        forall|i: int| 0 <= i < s.len() ==> s[i] != p[0],
    ensures
        absent(s, p),
{
    assert forall|i: int| !occurs_at(s, p, i) by {
        if 0 <= i < s.len() {
            lemma_occ_char(s, p, i, 0);
        }
    }
}

proof fn lemma_clean_plain(x: Seq<char>)
    requires
        plain(x),
    ensures
        clean(x) == x,
{
    reveal_strlit(") Tj");
    reveal_strlit("0 -10 Td (");
    reveal_strlit("0 500 Td (");
    reveal_strlit("BT");
    reveal_strlit("ET");
    lemma_remove_absent(x, ") Tj"@);
    lemma_remove_absent(x, "0 -10 Td ("@);
    lemma_remove_absent(x, "0 500 Td ("@);
    lemma_remove_absent(x, "BT"@);
    lemma_remove_absent(x, "ET"@);
    lemma_trim_plain(x);
}

proof fn lemma_clean_facts(n: Seq<char>, h: Seq<char>)
    requires
        plain(n),
        plain(h),
    ensures
        clean(n + ") Tj"@) == n,
        clean("0 500 Td ("@ + "Hash:"@ + h) == hash_tag() + h,
        clean("ET"@).len() == 0,
        clean("Q"@) == "Q"@,
{
    reveal_strlit(") Tj");
    reveal_strlit("0 -10 Td (");
    reveal_strlit("0 500 Td (");
    reveal_strlit("BT");
    reveal_strlit("ET");
    reveal_strlit("Q");
    reveal_strlit("Hash:");
    // the signer's line loses its show operator
    lemma_drop_show(n);
    lemma_remove_absent(n, "0 -10 Td ("@);
    lemma_remove_absent(n, "0 500 Td ("@);
    lemma_remove_absent(n, "BT"@);
    lemma_remove_absent(n, "ET"@);
    lemma_trim_plain(n);
    assert(clean(n + ") Tj"@) == n);
    // the hash line loses its upward move
    let lit = "0 500 Td ("@ + "Hash:"@;
    let p2 = lit + h;
    let hh = hash_tag() + h;
    lemma_absent_by_char(p2, ") Tj"@);
    lemma_remove_absent(p2, ") Tj"@);
    assert forall|i: int| 0 <= i < lit.len() implies !occurs_at(lit + h, "0 -10 Td ("@, i) by {
        if i == 0 || i == 4 {
            lemma_occ_char(lit + h, "0 -10 Td ("@, i, 2);
        } else if i == 3 {
            lemma_occ_char(lit + h, "0 -10 Td ("@, i, 1);
        } else {
            lemma_occ_char(lit + h, "0 -10 Td ("@, i, 0);
        }
    }
    lemma_absent_after(lit, h, "0 -10 Td ("@);
    lemma_remove_absent(p2, "0 -10 Td ("@);
    assert(p2.subrange(0, 10) =~= "0 500 Td ("@);
    assert(p2.subrange(10, p2.len() as int) =~= hh);
    assert forall|i: int| 0 <= i < 5 implies !occurs_at(hash_tag() + h, "0 500 Td ("@, i) by {
        lemma_occ_char(hash_tag() + h, "0 500 Td ("@, i, 0);
    }
    lemma_absent_after(hash_tag(), h, "0 500 Td ("@);
    lemma_remove_absent(hh, "0 500 Td ("@);
    assert forall|i: int| 0 <= i < 5 implies !occurs_at(hash_tag() + h, "BT"@, i) by {
        lemma_occ_char(hash_tag() + h, "BT"@, i, 0);
    }
    lemma_absent_after(hash_tag(), h, "BT"@);
    lemma_remove_absent(hh, "BT"@);
    assert forall|i: int| 0 <= i < 5 implies !occurs_at(hash_tag() + h, "ET"@, i) by {
        lemma_occ_char(hash_tag() + h, "ET"@, i, 0);
    }
    lemma_absent_after(hash_tag(), h, "ET"@);
    lemma_remove_absent(hh, "ET"@);
    lemma_trim_plain(hh);
    assert(clean(p2) == hh);
    // the end of the text block vanishes, the final `Q` stays
    lemma_absent_by_char("ET"@, "BT"@);
    lemma_remove_absent("ET"@, "BT"@);
    assert(remove_all(Seq::<char>::empty(), "ET"@) == Seq::<char>::empty());
    assert("ET"@.subrange(2, 2) =~= Seq::<char>::empty());
    assert("ET"@.subrange(0, 2) =~= "ET"@);
    assert(remove_all("ET"@, "ET"@) == Seq::<char>::empty());
    assert(clean("ET"@) =~= Seq::<char>::empty());
    assert(clean("Q"@) == "Q"@);
}

proof fn lemma_clean_lines3(n: Seq<char>, t: Seq<char>, h: Seq<char>)
    requires
        plain(n),
        plain(t),
        plain(h),
    ensures
        keep_nonempty(
            seq![n + ") Tj"@, t, "0 500 Td ("@ + "Hash:"@ + h, "ET"@, "Q"@].map_values(
                |l: Seq<char>| clean(l),
            ),
        ) == seq![n, t, hash_tag() + h, "Q"@],
{
    reveal_strlit("Q");
    lemma_clean_facts(n, h);
    lemma_clean_plain(t);
    let hh = hash_tag() + h;
    let p2 = "0 500 Td ("@ + "Hash:"@ + h;
    let mapped = seq![n + ") Tj"@, t, p2, "ET"@, "Q"@].map_values(|l: Seq<char>| clean(l));
    assert(clean("ET"@) =~= Seq::<char>::empty());
    assert(mapped =~= seq![n, t, hh, Seq::<char>::empty(), "Q"@]);
    assert(mapped.drop_last().drop_last() =~= seq![n, t, hh]);
    lemma_keep_all(seq![n, t, hh]);
    assert(keep_nonempty(mapped.drop_last()) == keep_nonempty(mapped.drop_last().drop_last()));
    assert(seq![n, t, hh].push("Q"@) =~= seq![n, t, hh, "Q"@]);
}

proof fn lemma_round_trip_without_extra(top: Seq<char>, n: Seq<char>, t: Seq<char>, h: Seq<char>)
    requires
        plain(n),
        plain(t),
        plain(h),
        absent(n, "0 "@),
        !starts_with(h, hash_tag()),
        forall|i: int| 0 <= i < top.len() ==> top[i] != 'D',
    ensures
        extract_spec(program(top, watermark_text(n, t, seq![], h))) == Some(
            (n, t, no_extra(), h),
        ),
{
    reveal_strlit("Digitally signed by ");
    reveal_strlit("\n");
    reveal_strlit("\nHash:");
    reveal_strlit("Hash:");
    reveal_strlit("q\nBT\n/FWM 8 Tf\n");
    reveal_strlit("10 ");
    reveal_strlit(" Td (");
    reveal_strlit(") Tj\n");
    reveal_strlit("0 -10 Td (");
    reveal_strlit("0 500 Td (");
    reveal_strlit("ET\nQ");
    let hh = hash_tag() + h;
    let w = watermark_text(n, t, seq![], h);
    let first = marker() + n;
    assert(w =~= first + seq!['\n'] + (t + seq!['\n'] + hh));
    assert(one_line(first));
    assert(one_line(hh));
    lemma_split_line(first, t + seq!['\n'] + hh, seq![]);
    lemma_split_line(t, hh, seq![]);
    lemma_split_last(hh, seq![]);
    assert(Seq::<char>::empty() + first =~= first);
    assert(Seq::<char>::empty() + t =~= t);
    assert(Seq::<char>::empty() + hh =~= hh);
    let ls = split_lines(w);
    assert(ls =~= seq![first, t, hh]);
    assert(moves(ls, 3) =~= Seq::<char>::empty());
    assert(moves(ls, 2) =~= "0 500 Td ("@ + hh + ") Tj\n"@);
    assert(moves(ls, 1) =~= "0 -10 Td ("@ + t + ") Tj\n"@ + "0 500 Td ("@ + hh + ") Tj\n"@);
    let a = "q\nBT\n/FWM 8 Tf\n"@ + "10 "@ + top + " Td ("@;
    let r = after_marker3(n, t, h);
    let s = program(top, w);
    assert(s =~= a + marker() + r);
    let al = a.len() as int;
    assert forall|i: int| 0 <= i < al implies !occurs_at(s, marker(), i) by {
        lemma_occ_char(s, marker(), i, 0);
    }
    assert(s.subrange(al, al + 20) =~= marker());
    lemma_find_first(s, marker(), al);
    let am = s.subrange(al, s.len() as int);
    assert(am =~= marker() + r);
    assert(am.subrange(0, 20) =~= marker());
    lemma_find_first(am, marker(), 0);
    assert(am.subrange(20, am.len() as int) =~= r);
    lemma_scan3(n, t, h);
    lemma_fallback3(n, t, h);
    lemma_clean_lines3(n, t, h);
    assert(parse_spec(am) == Some(seq![n, t, hh, "Q"@]));
    assert(hh.subrange(0, 5) =~= hash_tag());
    assert(hh.subrange(5, hh.len() as int) =~= h);
    assert(strip_prefixes(hh, hash_tag()) == strip_prefixes(h, hash_tag()));
    lemma_trim_plain(h);
    assert(hash_value(hh) == h);
}

/// The program text that follows the marker, for a block with an extra note.
pub open spec fn after_marker4(n: Seq<char>, t: Seq<char>, e: Seq<char>, h: Seq<char>) -> Seq<char> {
    n + ") Tj\n"@ + "0 -10 Td ("@ + t + ") Tj\n"@ + "0 -10 Td ("@ + e + ") Tj\n"@ + "0 500 Td ("@
        + "Hash:"@ + h + ") Tj\n"@ + "ET\nQ"@
}

proof fn lemma_scan_hash_tail(h: Seq<char>, acc: Seq<Seq<char>>)
    requires
        plain(h),
        acc.len() < 4,
    ensures
        scan("\n"@ + "0 500 Td ("@ + "Hash:"@ + h + ") Tj\n"@ + "ET\nQ"@, acc) == acc,
{
    reveal_strlit(") Tj\n");
    reveal_strlit("0 500 Td (");
    reveal_strlit("Hash:");
    reveal_strlit("ET\nQ");
    reveal_strlit("0 ");
    reveal_strlit(" Td (");
    reveal_strlit("(");
    reveal_strlit("\n");
    let rest = "\n"@ + "0 500 Td ("@ + "Hash:"@ + h + ") Tj\n"@ + "ET\nQ"@;
    assert(!occurs_at(rest, "0 "@, 0)) by {
        lemma_occ_char(rest, "0 "@, 0, 0);
    }
    assert(rest.subrange(1, 3) =~= "0 "@);
    lemma_find_first(rest, "0 "@, 1);
    let tail2 = rest.subrange(1, rest.len() as int);
    assert forall|i: int| 0 <= i < 5 implies !occurs_at(tail2, " Td ("@, i) by {
        if i == 1 {
            lemma_occ_char(tail2, " Td ("@, i, 1);
        } else {
            lemma_occ_char(tail2, " Td ("@, i, 0);
        }
    }
    assert(tail2.subrange(5, 10) =~= " Td ("@);
    lemma_find_first(tail2, " Td ("@, 5);
    let r3 = rest.subrange(11, rest.len() as int);
    assert(r3 =~= "Hash:"@ + h + ") Tj\n"@ + "ET\nQ"@);
    assert forall|i: int| 0 <= i implies !occurs_at(r3, "("@, i) by {
        if i < r3.len() {
            lemma_occ_char(r3, "("@, i, 0);
        }
    }
    lemma_find_none(r3, "("@);
}

proof fn lemma_scan4(n: Seq<char>, t: Seq<char>, e: Seq<char>, h: Seq<char>)
    requires
        plain(n),
        plain(t),
        plain(e),
        plain(h),
        absent(n, "0 "@),
    ensures
        scan(after_marker4(n, t, e, h), seq![]) == seq![e],
{
    reveal_strlit(") Tj\n");
    reveal_strlit("0 -10 Td (");
    reveal_strlit("0 500 Td (");
    reveal_strlit("Hash:");
    reveal_strlit("ET\nQ");
    reveal_strlit("0 ");
    reveal_strlit(" Td (");
    reveal_strlit("(");
    reveal_strlit(") Tj");
    let r = after_marker4(n, t, e, h);
    let nl = n.len() as int;
    assert forall|i: int| 0 <= i < nl + 5 implies !occurs_at(r, "0 "@, i) by {
        if i < nl - 1 {
            assert(r.subrange(i, i + 2) =~= n.subrange(i, i + 2));
            assert(!occurs_at(n, "0 "@, i));
        } else if i == nl - 1 {
            assert(r[i + 1] == ')');
            lemma_occ_char(r, "0 "@, i, 1);
        } else {
            lemma_occ_char(r, "0 "@, i, 0);
        }
    }
    assert(r.subrange(nl + 5, nl + 7) =~= "0 "@);
    lemma_find_first(r, "0 "@, nl + 5);
    let tail = r.subrange(nl + 5, r.len() as int);
    assert forall|i: int| 0 <= i < 5 implies !occurs_at(tail, " Td ("@, i) by {
        if i == 1 {
            lemma_occ_char(tail, " Td ("@, i, 1);
        } else {
            lemma_occ_char(tail, " Td ("@, i, 0);
        }
    }
    assert(tail.subrange(5, 10) =~= " Td ("@);
    lemma_find_first(tail, " Td ("@, 5);
    let r2 = r.subrange(nl + 15, r.len() as int);
    let tl = t.len() as int;
    assert(r2 =~= t + ") Tj\n"@ + "0 -10 Td ("@ + e + ") Tj\n"@ + "0 500 Td ("@ + "Hash:"@ + h
        + ") Tj\n"@ + "ET\nQ"@);
    assert forall|i: int| 0 <= i < tl + 14 implies !occurs_at(r2, "("@, i) by {
        lemma_occ_char(r2, "("@, i, 0);
    }
    assert(r2.subrange(tl + 14, tl + 15) =~= "("@);
    lemma_find_first(r2, "("@, tl + 14);
    let el = e.len() as int;
    let t2 = r2.subrange(tl + 14, r2.len() as int);
    assert forall|i: int| 0 <= i < el + 1 implies !occurs_at(t2, show_op(), i) by {
        lemma_occ_char(t2, show_op(), i, 0);
    }
    assert(t2.subrange(el + 1, el + 5) =~= show_op());
    lemma_find_first(t2, show_op(), el + 1);
    let body = r2.subrange(tl + 15, tl + 14 + el + 1);
    assert(body =~= e);
    lemma_trim_plain(e);
    let rest = r2.subrange(tl + 14 + el + 5, r2.len() as int);
    reveal_strlit("\n");
    assert(rest =~= "\n"@ + "0 500 Td ("@ + "Hash:"@ + h + ") Tj\n"@ + "ET\nQ"@);
    lemma_scan_hash_tail(h, seq![e]);
    assert(scan(rest, seq![e]) == seq![e]);
}

proof fn lemma_fallback4(n: Seq<char>, t: Seq<char>, e: Seq<char>, h: Seq<char>)
    requires
        plain(n),
        plain(t),
        plain(e),
        plain(h),
    ensures
        fallback(after_marker4(n, t, e, h)) == seq![
            n + ") Tj"@,
            t,
            e,
            "0 500 Td ("@ + "Hash:"@ + h,
            "ET"@,
        ],
{
    reveal_strlit(") Tj\n");
    reveal_strlit(") Tj");
    reveal_strlit("0 -10 Td (");
    reveal_strlit("0 500 Td (");
    reveal_strlit("Hash:");
    reveal_strlit("ET\nQ");
    reveal_strlit("ET");
    reveal_strlit("Q");
    reveal_strlit("\n");
    let r = after_marker4(n, t, e, h);
    let nl = n.len() as int;
    assert forall|i: int| 0 <= i < nl + 4 implies !occurs_at(r, "\n"@, i) by {
        lemma_occ_char(r, "\n"@, i, 0);
    }
    assert(r.subrange(nl + 4, nl + 5) =~= "\n"@);
    lemma_find_first(r, "\n"@, nl + 4);
    let name = r.subrange(0, nl + 4);
    assert(name =~= n + ") Tj"@);
    lemma_trim_plain(name);
    assert(name.len() != show_op().len());
    let x1 = "0 -10 Td ("@ + t + ") Tj"@;
    let xe = "0 -10 Td ("@ + e + ") Tj"@;
    let x2 = "0 500 Td ("@ + "Hash:"@ + h + ") Tj"@;
    let rest = r.subrange(nl + 5, r.len() as int);
    let r2 = x2 + seq!['\n'] + ("ET"@ + seq!['\n'] + "Q"@);
    let r1 = xe + seq!['\n'] + r2;
    assert(rest =~= x1 + seq!['\n'] + r1);
    assert(one_line(x1));
    assert(one_line(xe));
    assert(one_line(x2));
    assert(one_line("ET"@));
    assert(one_line("Q"@));
    lemma_lines_line(x1, r1, seq![]);
    lemma_lines_line(xe, r2, seq![]);
    lemma_lines_line(x2, "ET"@ + seq!['\n'] + "Q"@, seq![]);
    lemma_lines_line("ET"@, "Q"@, seq![]);
    lemma_lines_last("Q"@, seq![]);
    assert(Seq::<char>::empty() + x1 =~= x1);
    assert(Seq::<char>::empty() + xe =~= xe);
    assert(Seq::<char>::empty() + x2 =~= x2);
    assert(Seq::<char>::empty() + "ET"@ =~= "ET"@);
    assert(Seq::<char>::empty() + "Q"@ =~= "Q"@);
    let ls = lines_of(rest);
    assert(ls =~= seq![x1, xe, x2, "ET"@, "Q"@]);
    let p1 = "0 -10 Td ("@ + t;
    lemma_drop_show(p1);
    assert(x1 =~= p1 + ") Tj"@);
    assert(p1.subrange(0, 10) =~= "0 -10 Td ("@);
    assert(p1.subrange(10, p1.len() as int) =~= t);
    lemma_remove_absent(t, "0 -10 Td ("@);
    lemma_trim_plain(t);
    assert(clean_light(x1) == t);
    let pe = "0 -10 Td ("@ + e;
    lemma_drop_show(pe);
    assert(xe =~= pe + ") Tj"@);
    assert(pe.subrange(0, 10) =~= "0 -10 Td ("@);
    assert(pe.subrange(10, pe.len() as int) =~= e);
    lemma_remove_absent(e, "0 -10 Td ("@);
    lemma_trim_plain(e);
    assert(clean_light(xe) == e);
    let p2 = "0 500 Td ("@ + "Hash:"@ + h;
    lemma_drop_show(p2);
    assert(x2 =~= p2 + ") Tj"@);
    let lit = "0 500 Td ("@ + "Hash:"@;
    assert(p2 =~= lit + h);
    assert forall|i: int| 0 <= i < lit.len() implies !occurs_at(lit + h, "0 -10 Td ("@, i) by {
        if i == 0 || i == 4 {
            lemma_occ_char(lit + h, "0 -10 Td ("@, i, 2);
        } else if i == 3 {
            lemma_occ_char(lit + h, "0 -10 Td ("@, i, 1);
        } else {
            lemma_occ_char(lit + h, "0 -10 Td ("@, i, 0);
        }
    }
    lemma_absent_after(lit, h, "0 -10 Td ("@);
    lemma_remove_absent(p2, "0 -10 Td ("@);
    lemma_trim_plain(p2);
    assert(clean_light(x2) == p2);
    assert(clean_light("ET"@) == "ET"@);
    let cl = first_n(ls, 4).map_values(|l: Seq<char>| clean_light(l));
    assert(cl =~= seq![t, e, p2, "ET"@]);
    lemma_keep_all(cl);
    assert(seq![name] + cl =~= seq![n + ") Tj"@, t, e, p2, "ET"@]);
}

proof fn lemma_clean_lines4(n: Seq<char>, t: Seq<char>, e: Seq<char>, h: Seq<char>)
    requires
        plain(n),
        plain(t),
        plain(e),
        plain(h),
    ensures
        keep_nonempty(
            seq![n + ") Tj"@, t, e, "0 500 Td ("@ + "Hash:"@ + h, "ET"@].map_values(
                |l: Seq<char>| clean(l),
            ),
        ) == seq![n, t, e, hash_tag() + h],
{
    lemma_clean_facts(n, h);
    lemma_clean_plain(t);
    lemma_clean_plain(e);
    let hh = hash_tag() + h;
    let p2 = "0 500 Td ("@ + "Hash:"@ + h;
    let mapped = seq![n + ") Tj"@, t, e, p2, "ET"@].map_values(|l: Seq<char>| clean(l));
    assert(mapped =~= seq![n, t, e, hh, clean("ET"@)]);
    assert(mapped.drop_last() =~= seq![n, t, e, hh]);
    lemma_keep_all(seq![n, t, e, hh]);
}

proof fn lemma_program4(top: Seq<char>, n: Seq<char>, t: Seq<char>, e: Seq<char>, h: Seq<char>)
    requires
        one_line(n),
        one_line(t),
        one_line(e),
        one_line(h),
        e.len() > 0,
    ensures
        program(top, watermark_text(n, t, e, h)) == "q\nBT\n/FWM 8 Tf\n"@ + "10 "@ + top + " Td ("@
            + marker() + after_marker4(n, t, e, h),
{
    reveal_strlit("Digitally signed by ");
    reveal_strlit("\n");
    reveal_strlit("\nHash:");
    reveal_strlit("Hash:");
    let hh = hash_tag() + h;
    let w = watermark_text(n, t, e, h);
    let first = marker() + n;
    assert(w =~= first + seq!['\n'] + (t + seq!['\n'] + (e + seq!['\n'] + hh)));
    assert(one_line(first));
    assert(one_line(hh));
    lemma_split_line(first, t + seq!['\n'] + (e + seq!['\n'] + hh), seq![]);
    lemma_split_line(t, e + seq!['\n'] + hh, seq![]);
    lemma_split_line(e, hh, seq![]);
    lemma_split_last(hh, seq![]);
    assert(Seq::<char>::empty() + first =~= first);
    assert(Seq::<char>::empty() + t =~= t);
    assert(Seq::<char>::empty() + e =~= e);
    assert(Seq::<char>::empty() + hh =~= hh);
    let ls = split_lines(w);
    assert(ls =~= seq![first, t, e, hh]);
    assert(moves(ls, 4) =~= Seq::<char>::empty());
    assert(moves(ls, 3) =~= "0 500 Td ("@ + hh + ") Tj\n"@);
    assert(moves(ls, 2) =~= "0 -10 Td ("@ + e + ") Tj\n"@ + "0 500 Td ("@ + hh + ") Tj\n"@);
    assert(moves(ls, 1) =~= "0 -10 Td ("@ + t + ") Tj\n"@ + "0 -10 Td ("@ + e + ") Tj\n"@
        + "0 500 Td ("@ + hh + ") Tj\n"@);
    assert(program(top, w) =~= "q\nBT\n/FWM 8 Tf\n"@ + "10 "@ + top + " Td ("@ + marker()
        + after_marker4(n, t, e, h));
}

proof fn lemma_round_trip_with_extra(
    top: Seq<char>,
    n: Seq<char>,
    t: Seq<char>,
    e: Seq<char>,
    h: Seq<char>,
)
    requires
        plain(n),
        plain(t),
        plain(e),
        plain(h),
        absent(n, "0 "@),
        !starts_with(e, hash_tag()),
        !starts_with(h, hash_tag()),
        forall|i: int| 0 <= i < top.len() ==> top[i] != 'D',
    ensures
        extract_spec(program(top, watermark_text(n, t, e, h))) == Some((n, t, e, h)),
{
    reveal_strlit("Digitally signed by ");
    reveal_strlit("Hash:");
    reveal_strlit("q\nBT\n/FWM 8 Tf\n");
    reveal_strlit("10 ");
    reveal_strlit(" Td (");
    let hh = hash_tag() + h;
    let w = watermark_text(n, t, e, h);
    lemma_program4(top, n, t, e, h);
    let a = "q\nBT\n/FWM 8 Tf\n"@ + "10 "@ + top + " Td ("@;
    let r = after_marker4(n, t, e, h);
    let s = program(top, w);
    assert(s =~= a + marker() + r);
    let al = a.len() as int;
    assert forall|i: int| 0 <= i < al implies !occurs_at(s, marker(), i) by {
        lemma_occ_char(s, marker(), i, 0);
    }
    assert(s.subrange(al, al + 20) =~= marker());
    lemma_find_first(s, marker(), al);
    let am = s.subrange(al, s.len() as int);
    assert(am =~= marker() + r);
    assert(am.subrange(0, 20) =~= marker());
    lemma_find_first(am, marker(), 0);
    assert(am.subrange(20, am.len() as int) =~= r);
    lemma_scan4(n, t, e, h);
    lemma_fallback4(n, t, e, h);
    lemma_clean_lines4(n, t, e, h);
    assert(parse_spec(am) == Some(seq![n, t, e, hh]));
    assert(hh.subrange(0, 5) =~= hash_tag());
    assert(hh.subrange(5, hh.len() as int) =~= h);
    assert(strip_prefixes(hh, hash_tag()) == strip_prefixes(h, hash_tag()));
    lemma_trim_plain(h);
    assert(hash_value(hh) == h);
}

/// What the encoder draws comes back out: extracting from the content-stream
/// program of a watermark block (at any height label without the letter `D`)
/// recovers the signer, the timestamp and the hash exactly, and the extra note
/// where there is one (`(none)` otherwise). This holds for plain fields (see
/// `plain`), a signer without `"0 "`, and an extra note and a hash that do not
/// themselves begin with `Hash:`.
pub proof fn lemma_round_trip(
    top: Seq<char>,
    n: Seq<char>,
    t: Seq<char>,
    e: Seq<char>,
    h: Seq<char>,
)
    requires
        plain(n),
        plain(t),
        e.len() == 0 || (plain(e) && !starts_with(e, hash_tag())),
        plain(h),
        absent(n, "0 "@),
        !starts_with(h, hash_tag()),
        forall|i: int| 0 <= i < top.len() ==> top[i] != 'D',
    ensures
        extract_spec(program(top, watermark_text(n, t, e, h))) == Some(
            (
                n,
                t,
                if e.len() == 0 {
                    no_extra()
                } else {
                    e
                },
                h,
            ),
        ),
{
    if e.len() == 0 {
        assert(watermark_text(n, t, e, h) == watermark_text(n, t, seq![], h));
        lemma_round_trip_without_extra(top, n, t, h);
    } else {
        lemma_round_trip_with_extra(top, n, t, e, h);
    }
}

} // verus!
