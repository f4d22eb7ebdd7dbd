//! The content sanitizer: embedded markup is stripped by collecting the
//! text nodes of the fragment, and the collected text is bounded in length
//! with an ellipsis marking the cut.

use crate::text::{concat2, trim_spec, trim_start_spec, trim_end_spec, is_space};
use vstd::prelude::*;
use vstd::string::StrSliceExecFns;

verus! {

/// The longest description that is passed through uncut, in characters.
pub const DESCRIPTION_LIMIT: usize = 500;

/// The text nodes of `raw` read as embedded markup, in document order.
/// The decomposition depends on the characters alone.
pub uninterp spec fn text_fragments_of(raw: Seq<char>) -> Seq<Seq<char>>;

/// Relies on `scraper::Html::parse_document` and `ElementRef::text`: the
/// text nodes of the parsed fragment in document order, a function of the
/// input characters alone. Parsing never fails; a document always has a
/// root element to walk.
#[verifier::external_body]
pub fn html_text_fragments(raw: &str) -> (r: Vec<String>)
    ensures
        r.deep_view() == text_fragments_of(raw@),
{
    let document = scraper::Html::parse_document(raw);
    document.root_element().text().map(|t: &str| t.to_string()).collect()
}

/// All fragments joined in order.
pub open spec fn concat_frags(frags: Seq<Seq<char>>) -> Seq<char>
    decreases frags.len(),
{
    if frags.len() == 0 {
        Seq::empty()
    } else {
        frags[0] + concat_frags(frags.drop_first())
    }
}

/// The combined length of all fragments.
pub open spec fn total_len(frags: Seq<Seq<char>>) -> int
    decreases frags.len(),
{
    if frags.len() == 0 {
        0
    } else {
        frags[0].len() + total_len(frags.drop_first())
    }
}

/// Fragments joined onto `acc` until the limit would be passed; the
/// fragment that would pass it is cut so the total reaches the limit
/// exactly, an ellipsis is appended, and the rest is dropped.
pub open spec fn clip_from(frags: Seq<Seq<char>>, acc: Seq<char>) -> Seq<char>
    decreases frags.len(),
{
    if frags.len() == 0 {
        acc
    } else if acc.len() + frags[0].len() <= DESCRIPTION_LIMIT as int {
        clip_from(frags.drop_first(), acc + frags[0])
    } else {
        acc + frags[0].take(DESCRIPTION_LIMIT as int - acc.len()) + "..."@
    }
}

/// The fragments joined and bounded to the description limit.
pub open spec fn clip_spec(frags: Seq<Seq<char>>) -> Seq<char> {
    clip_from(frags, Seq::empty())
}

/// `s` ends with the suffix `t`.
pub open spec fn ends_with(s: Seq<char>, t: Seq<char>) -> bool {
    s.len() >= t.len() && s.skip(s.len() - t.len()) == t
}

pub fn clip_fragments(frags: &Vec<String>) -> (r: String)
    ensures
        r@ == clip_spec(frags.deep_view()),
{
    let ghost dv = frags.deep_view();
    let mut texts = String::new();
    let mut count: usize = 0;
    let mut k: usize = 0;
    proof {
        assert(dv.skip(0) =~= dv);
        assert(dv.len() == frags@.len());
    }
    while k < frags.len()
        invariant
            k <= frags.len(),
            dv == frags.deep_view(),
            dv.len() == frags@.len(),
            count == texts@.len(),
            count <= DESCRIPTION_LIMIT,
            clip_from(dv.skip(k as int), texts@) == clip_spec(dv),
        decreases frags.len() - k,
    {
        proof {
            assert(dv.skip(k as int).drop_first() =~= dv.skip(k + 1));
            assert(dv.skip(k as int)[0] == dv[k as int]);
            assert(dv[k as int] == frags@[k as int]@);
        }
        let f = &frags[k];
        let flen = f.as_str().unicode_len();
        if flen <= DESCRIPTION_LIMIT - count {
            texts = concat2(texts.as_str(), f.as_str());
            count = count + flen;
        } else {
            let cut = f.as_str().substring_char(0, DESCRIPTION_LIMIT - count);
            let head = concat2(texts.as_str(), cut);
            let r = concat2(head.as_str(), "...");
            proof {
                assert(f@.subrange(0, DESCRIPTION_LIMIT as int - texts@.len()) =~= f@.take(
                    DESCRIPTION_LIMIT as int - texts@.len()));
            }
            return r;
        }
        k += 1;
    }
    proof {
        assert(dv.skip(frags@.len() as int) =~= Seq::<Seq<char>>::empty());
    }
    texts
}

proof fn lemma_clip_from_short(frags: Seq<Seq<char>>, acc: Seq<char>)
    requires
        acc.len() + total_len(frags) <= DESCRIPTION_LIMIT as int,
    ensures
        clip_from(frags, acc) == acc + concat_frags(frags),
    decreases frags.len(),
{
    if frags.len() == 0 {
        assert(acc + concat_frags(frags) =~= acc);
    } else {
        assert(total_len(frags.drop_first()) >= 0) by {
            lemma_total_len_nonneg(frags.drop_first());
        }
        lemma_clip_from_short(frags.drop_first(), acc + frags[0]);
        assert((acc + frags[0]) + concat_frags(frags.drop_first()) =~= acc + (frags[0]
            + concat_frags(frags.drop_first())));
    }
}

proof fn lemma_total_len_nonneg(frags: Seq<Seq<char>>)
    ensures
        total_len(frags) >= 0,
    decreases frags.len(),
{
    if frags.len() > 0 {
        lemma_total_len_nonneg(frags.drop_first());
    }
}

proof fn lemma_clip_from_long(frags: Seq<Seq<char>>, acc: Seq<char>)
    requires
        acc.len() <= DESCRIPTION_LIMIT as int,
        acc.len() + total_len(frags) > DESCRIPTION_LIMIT as int,
    ensures
        clip_from(frags, acc).len() == DESCRIPTION_LIMIT as int + 3,
        ends_with(clip_from(frags, acc), "..."@),
    decreases frags.len(),
{
    reveal_strlit("...");
    if frags.len() == 0 {
    } else if acc.len() + frags[0].len() <= DESCRIPTION_LIMIT as int {
        lemma_clip_from_long(frags.drop_first(), acc + frags[0]);
    } else {
        let r = acc + frags[0].take(DESCRIPTION_LIMIT as int - acc.len()) + "..."@;
        assert(r.len() == DESCRIPTION_LIMIT as int + 3);
        assert(r.skip(r.len() - 3) =~= "..."@);
    }
}

proof fn lemma_trim_start_len(s: Seq<char>)
    ensures
        trim_start_spec(s).len() <= s.len(),
    decreases s.len(),
{
    if s.len() > 0 && is_space(s[0]) {
        lemma_trim_start_len(s.drop_first());
    }
}

proof fn lemma_trim_start_keeps_tail(s: Seq<char>, k: int)
    requires
        0 <= k < s.len(),
        !is_space(s[k]),
    ensures
        trim_start_spec(s).len() >= s.len() - k,
        trim_start_spec(s) == s.skip(s.len() - trim_start_spec(s).len()),
    decreases s.len(),
{
    if s.len() > 0 && is_space(s[0]) {
        lemma_trim_start_keeps_tail(s.drop_first(), k - 1);
        lemma_trim_start_len(s.drop_first());
        let t = trim_start_spec(s);
        assert(t == trim_start_spec(s.drop_first()));
        assert(t.len() <= s.len() - 1);
        assert(s.drop_first().skip(s.len() - 1 - t.len()) =~= s.skip(s.len() - t.len()));
    } else {
        assert(s.skip(0) =~= s);
    }
}

/// Trimming keeps a final ellipsis: the dots are not white space, so only
/// leading characters can go.
proof fn lemma_trim_keeps_ellipsis(s: Seq<char>)
    requires
        ends_with(s, "..."@),
    ensures
        ends_with(trim_spec(s), "..."@),
        trim_spec(s).len() <= s.len(),
{
    broadcast use vstd::seq_lib::lemma_seq_skip_index;

    reveal_strlit("...");
    assert(s.skip(s.len() - 3)[0] == s[s.len() - 3]);
    assert(s.skip(s.len() - 3)[2] == s[s.len() - 1]);
    assert(!is_space('.'));
    lemma_trim_start_keeps_tail(s, s.len() - 3);
    lemma_trim_start_len(s);
    let t = trim_start_spec(s);
    assert(t.len() >= 3);
    let m = s.len() - t.len();
    assert(m >= 0);
    assert(t == s.skip(m));
    assert(t.last() == s.skip(m)[t.len() - 1]);
    assert(s.skip(m)[t.len() - 1] == s[s.len() - 1]);
    assert(!is_space(t.last()));
    assert(trim_end_spec(t) == t);
    assert forall|i: int| 0 <= i < 3 implies #[trigger] t.skip(t.len() - 3)[i] == s.skip(
        s.len() - 3,
    )[i] by {
        assert(t.skip(t.len() - 3)[i] == t[t.len() - 3 + i]);
        assert(t[t.len() - 3 + i] == s.skip(m)[t.len() - 3 + i]);
        assert(s.skip(m)[t.len() - 3 + i] == s[s.len() - 3 + i]);
        assert(s.skip(s.len() - 3)[i] == s[s.len() - 3 + i]);
    }
    assert(t.skip(t.len() - 3) =~= s.skip(s.len() - 3));
}

/// The description bound: fragments whose total length stays within the
/// limit come through joined and unchanged; a longer total is cut to
/// exactly the limit plus the three dots, and still ends with the dots
/// after trimming.
pub proof fn lemma_description_truncation(frags: Seq<Seq<char>>)
    ensures
        total_len(frags) <= DESCRIPTION_LIMIT as int ==> clip_spec(frags) == concat_frags(frags),
        total_len(frags) > DESCRIPTION_LIMIT as int ==> clip_spec(frags).len() == DESCRIPTION_LIMIT
            as int + 3 && ends_with(clip_spec(frags), "..."@) && trim_spec(
            clip_spec(frags),
        ).len() <= DESCRIPTION_LIMIT as int + 3 && ends_with(trim_spec(clip_spec(frags)), "..."@),
{
    if total_len(frags) <= DESCRIPTION_LIMIT as int {
        lemma_clip_from_short(frags, Seq::empty());
        assert(Seq::<char>::empty() + concat_frags(frags) =~= concat_frags(frags));
    } else {
        lemma_clip_from_long(frags, Seq::empty());
        lemma_trim_keeps_ellipsis(clip_spec(frags));
    }
}

} // verus!
