//! Properties that relate several of the library's operations.
use vstd::prelude::*;
use crate::document::{Document, PdfObject, lookup};
use crate::document::dict_get;
use crate::encoder::{font_id, height_spec, lemma_dict_pages_bounds, media_box_key, stream_id, PageHeight};
use crate::extract::{
    begin_text, clean, end_text, extract_spec, marker, show_op, step_down, step_up,
};
use crate::text::{find_spec, is_ws, occurs_at, remove_all, trim, trim_end, trim_start};

verus! {

/// `p` occurs nowhere in `s`.
pub open spec fn absent(s: Seq<char>, p: Seq<char>) -> bool {
    forall|i: int| !occurs_at(s, p, i)
}

/// `s` holds none of the operator fragments that cleaning removes.
pub open spec fn free_of_noise(s: Seq<char>) -> bool {
    absent(s, show_op()) && absent(s, step_down()) && absent(s, step_up()) && absent(
        s,
        begin_text(),
    ) && absent(s, end_text())
}

pub proof fn lemma_remove_absent(s: Seq<char>, p: Seq<char>)
    requires
        p.len() > 0,
        absent(s, p),
    ensures
        remove_all(s, p) == s,
    decreases s.len(),
{
    if s.len() >= p.len() {
        assert(!occurs_at(s, p, 0));
        let t = s.subrange(1, s.len() as int);
        assert forall|i: int| !occurs_at(t, p, i) by {
            if occurs_at(t, p, i) {
                assert(s.subrange(i + 1, i + 1 + p.len()) =~= t.subrange(i, i + p.len()));
                assert(occurs_at(s, p, i + 1));
            }
        }
        lemma_remove_absent(t, p);
        assert(seq![s[0]] + t =~= s);
    }
}

proof fn lemma_trim_start_shape(s: Seq<char>)
    ensures
        trim_start(s).len() == 0 || !is_ws(trim_start(s)[0]),
    decreases s.len(),
{
    if s.len() > 0 && is_ws(s[0]) {
        lemma_trim_start_shape(s.subrange(1, s.len() as int));
    }
}

proof fn lemma_trim_end_shape(s: Seq<char>)
    ensures
        trim_end(s).len() <= s.len(),
        trim_end(s) == s.subrange(0, trim_end(s).len() as int),
        trim_end(s).len() == 0 || !is_ws(trim_end(s).last()),
    decreases s.len(),
{
    if s.len() > 0 && is_ws(s.last()) {
        lemma_trim_end_shape(s.drop_last());
        assert(s.drop_last().subrange(0, trim_end(s).len() as int) =~= s.subrange(
            0,
            trim_end(s).len() as int,
        ));
    } else {
        assert(s.subrange(0, s.len() as int) =~= s);
    }
}

/// Trimming what is already trimmed changes nothing.
pub proof fn lemma_trim_idempotent(s: Seq<char>)
    ensures
        trim(trim(s)) == trim(s),
{
    let y = trim_start(s);
    let t = trim_end(y);
    lemma_trim_start_shape(s);
    lemma_trim_end_shape(y);
    if t.len() > 0 {
        assert(t[0] == y[0]);
    }
    assert(trim_start(t) == t);
}

/// Cleaning is idempotent on the lines whose first cleaning leaves none of
/// the operator fragments behind: cleaning such a cleaned line again gives it
/// back unchanged.
pub proof fn lemma_clean_idempotent(l: Seq<char>)
    requires
        free_of_noise(clean(l)),
    ensures
        clean(clean(l)) == clean(l),
{
    let c = clean(l);
    reveal_strlit(") Tj");
    reveal_strlit("0 -10 Td (");
    reveal_strlit("0 500 Td (");
    reveal_strlit("BT");
    reveal_strlit("ET");
    lemma_remove_absent(c, show_op());
    lemma_remove_absent(c, step_down());
    lemma_remove_absent(c, step_up());
    lemma_remove_absent(c, begin_text());
    lemma_remove_absent(c, end_text());
    lemma_trim_idempotent(
        remove_all(
            remove_all(
                remove_all(remove_all(remove_all(l, show_op()), step_down()), step_up()),
                begin_text(),
            ),
            end_text(),
        ),
    );
}

/// Each page that is a dictionary gets a stream of its own: its id differs
/// from that of every later page's stream, from the shared font's and from
/// every page's.
pub proof fn lemma_streams_distinct(d: Document, i: int, j: int)
    requires
        d.wf(),
        0 <= i < j < d.pages@.len(),
        d.max_id + d.pages@.len() + 1 <= u32::MAX,
        lookup(d.objects@, d.pages@[i]) matches Some(PdfObject::Dictionary(_)),
    ensures
        stream_id(d, i) != stream_id(d, j),
        stream_id(d, i) != font_id(d),
        forall|k: int| 0 <= k < d.pages@.len() ==> stream_id(d, i) != d.pages@[k],
{
    lemma_dict_pages_bounds(d.objects@, d.pages@, j, i + 1);
    lemma_dict_pages_bounds(d.objects@, d.pages@, i + 1, i);
    lemma_dict_pages_bounds(d.objects@, d.pages@, i, 0);
}

/// A page whose `MediaBox` is absent, is not an array, has fewer than four
/// entries, or whose fourth entry is not a number, is taken as US Letter; its
/// first line then stands at `777`.
pub proof fn lemma_default_height(es: Seq<(Vec<u8>, PdfObject)>)
    requires
        !(dict_get(es, media_box_key()) matches Some(PdfObject::Array(a)) && (a@.len() >= 4 && (
        a@[3] is Integer || a@[3] is Real))),
    ensures
        height_spec(es) == PageHeight::Letter,
{
}

/// Text without the marker holds no watermark.
pub proof fn lemma_unmarked_text(t: Seq<char>)
    requires
        find_spec(t, marker()) is None,
    ensures
        extract_spec(t) is None,
{
}

} // verus!
