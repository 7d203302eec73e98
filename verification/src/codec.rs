//! The JSON wire format of events and of stored event lists.
//!
//! An event travels as one JSON object with a fixed key order; a profile bin
//! holds a JSON array of such objects.  The format is deliberately a single
//! canonical spelling of JSON: keys in declaration order, no whitespace
//! between tokens, no escape sequences (so string values carry no quote,
//! backslash or control characters), and numerals without redundant signs or
//! zeros.  Rendering is specified exactly; each parser succeeds exactly on
//! the canonical rendering of a well-formed value and returns that value, so
//! reading and writing back reproduces the input byte for byte.  A body in
//! any other JSON spelling — reordered keys, added whitespace, escapes — is
//! rejected at the boundary rather than read.

use vstd::prelude::*;

use crate::datetime::{parse_rfc3339_region, push_rfc3339, render_rfc3339, DateTime};
use crate::text::{
    chars_of, dec_str_int, digit_of, int_val, is_canonical_int, lemma_canonical_int_dec_str,
    lemma_subrange_concat, parse_i64_region, string_from_chars,
};
use crate::user_tag::{
    action_name, device_name, plain, plain_char, Action, Device, ProductInfo, TagView, UserTag,
};

verus! {

/// The canonical JSON rendering of one event.
pub open spec fn spec_render_tag(tv: TagView) -> Seq<char> {
    "{\"time\":\""@ + render_rfc3339(tv.time) + "\",\"cookie\":\""@ + tv.cookie
        + "\",\"country\":\""@ + tv.country + "\",\"device\":\""@ + device_name(tv.device)
        + "\",\"action\":\""@ + action_name(tv.action) + "\",\"origin\":\""@ + tv.origin
        + "\",\"product_info\":{\"product_id\":"@ + dec_str_int(tv.product_id as int)
        + ",\"brand_id\":\""@ + tv.brand_id + "\",\"category_id\":\""@ + tv.category_id
        + "\",\"price\":"@ + dec_str_int(tv.price as int) + "}}"@
}

/// The leading half of an event rendering, through the origin field.
pub open spec fn spec_render_tag_head(tv: TagView) -> Seq<char> {
    "{\"time\":\""@ + render_rfc3339(tv.time) + "\",\"cookie\":\""@ + tv.cookie
        + "\",\"country\":\""@ + tv.country + "\",\"device\":\""@ + device_name(tv.device)
        + "\",\"action\":\""@ + action_name(tv.action) + "\",\"origin\":\""@ + tv.origin
}

/// The trailing half of an event rendering: the product information.
pub open spec fn spec_render_tag_tail(tv: TagView) -> Seq<char> {
    "\",\"product_info\":{\"product_id\":"@ + dec_str_int(tv.product_id as int)
        + ",\"brand_id\":\""@ + tv.brand_id + "\",\"category_id\":\""@ + tv.category_id
        + "\",\"price\":"@ + dec_str_int(tv.price as int) + "}}"@
}

/// The rendering is its two halves, joined.
pub proof fn lemma_render_tag_halves(tv: TagView)
    ensures
        spec_render_tag(tv) == spec_render_tag_head(tv) + spec_render_tag_tail(tv),
{
    assert(spec_render_tag(tv) =~= spec_render_tag_head(tv) + spec_render_tag_tail(tv));
}

/// The views of a sequence of events.
pub open spec fn seq_views(s: Seq<UserTag>) -> Seq<TagView> {
    s.map_values(|t: UserTag| t@)
}

pub open spec fn all_wf(l: Seq<TagView>) -> bool {
    forall|i: int| 0 <= i < l.len() ==> (#[trigger] l[i]).wf()
}

/// The body of a rendered event array: events joined by commas.
pub open spec fn tags_body(l: Seq<TagView>) -> Seq<char>
    decreases l.len(),
{
    if l.len() == 0 {
        Seq::empty()
    } else if l.len() == 1 {
        spec_render_tag(l[0])
    } else {
        tags_body(l.drop_last()) + ","@ + spec_render_tag(l.last())
    }
}

/// The canonical JSON rendering of an event list.
pub open spec fn spec_render_tags(l: Seq<TagView>) -> Seq<char> {
    "["@ + tags_body(l) + "]"@
}

/// Appends the characters of a string.
pub fn push_chars(v: &mut Vec<char>, s: &str)
    ensures
        final(v)@ == old(v)@ + s@,
{
    let cs = chars_of(s);
    let n = cs.len();
    let mut k: usize = 0;
    while k < n
        invariant
            0 <= k <= n,
            n == cs@.len(),
            cs@ == s@,
            v@ == old(v)@ + cs@.subrange(0, k as int),
        decreases n - k,
    {
        v.push(cs[k]);
        proof {
            assert(v@ =~= old(v)@ + cs@.subrange(0, k + 1));
        }
        k += 1;
    }
    proof {
        assert(cs@.subrange(0, n as int) =~= cs@);
    }
}

/// Matches a fixed literal at a position, returning the cursor past it;
/// fails exactly when the literal does not stand there.
fn match_lit(v: &Vec<char>, i: usize, lit: &str) -> (r: Option<usize>)
    requires
        i <= v@.len(),
    ensures
        match r {
            Some(j) => i + lit@.len() == j && j <= v@.len() && v@.subrange(i as int, j as int)
                == lit@,
            None => !(i + lit@.len() <= v@.len() && v@.subrange(i as int, i + lit@.len()) == lit@),
        },
{
    let cs = chars_of(lit);
    let n = cs.len();
    if v.len() - i < n {
        return None;
    }
    proof {
        assert(i + n <= v@.len());
    }
    let mut k: usize = 0;
    while k < n
        invariant
            0 <= k <= n,
            n == cs@.len(),
            cs@ == lit@,
            i + n <= v@.len(),
            i + n <= usize::MAX,
            forall|m: int| 0 <= m < k ==> v@[i + m] == cs@[m],
        decreases n - k,
    {
        if v[i + k] != cs[k] {
            proof {
                assert(v@.subrange(i as int, i + n)[k as int] == v@[i + k]);
            }
            return None;
        }
        k += 1;
    }
    proof {
        assert(v@.subrange(i as int, i + n) =~= lit@);
    }
    Some(i + n)
}

/// Scans unescaped string content up to a closing quote, which stays at the
/// returned cursor; fails exactly when no quote closes a plain run here.
fn scan_plain(v: &Vec<char>, i: usize) -> (r: Option<(String, usize)>)
    requires
        i <= v@.len(),
    ensures
        match r {
            Some(p) => {
                &&& i <= p.1 < v@.len()
                &&& v@.subrange(i as int, p.1 as int) == p.0@
                &&& plain(p.0@)
                &&& v@[p.1 as int] == '"'
            },
            None => forall|j: int|
                i <= j < v@.len() ==> !(v@[j] == '"' && plain(v@.subrange(i as int, j))),
        },
{
    let mut content: Vec<char> = Vec::new();
    let mut k = i;
    loop
        invariant
            i <= k <= v@.len(),
            content@ == v@.subrange(i as int, k as int),
            plain(content@),
            forall|m: int| i <= m < k ==> v@[m] != '"',
        decreases v@.len() - k,
    {
        if k == v.len() {
            proof {
                assert forall|j: int| i <= j < v@.len() implies !(v@[j] == '"' && plain(
                    v@.subrange(i as int, j),
                )) by {
                    assert(v@[j] != '"');
                }
            }
            return None;
        }
        let c = v[k];
        if c == '"' {
            let s = string_from_chars(&content);
            return Some((s, k));
        }
        if c == '\\' || (c as u32) < 32 {
            proof {
                assert(!plain_char(v@[k as int]));
                assert forall|j: int| i <= j < v@.len() implies !(v@[j] == '"' && plain(
                    v@.subrange(i as int, j),
                )) by {
                    if v@[j] == '"' && plain(v@.subrange(i as int, j)) {
                        assert(j > k);
                        assert(v@.subrange(i as int, j)[k - i] == v@[k as int]);
                        assert(plain_char(v@[k as int]));
                    }
                }
            }
            return None;
        }
        content.push(c);
        proof {
            assert(content@ =~= v@.subrange(i as int, k + 1));
        }
        k += 1;
    }
}

/// Where a numeral starting at `i` has to end: at the first non-digit past
/// the optional sign.
spec fn numeral_boundary(s: Seq<char>, i: int, j: int) -> bool {
    &&& i < j <= s.len()
    &&& (j == s.len() || !crate::text::is_digit(s[j]))
    &&& forall|m: int|
        (if s[i] == '-' {
            i + 1
        } else {
            i
        }) <= m < j ==> crate::text::is_digit(#[trigger] s[m])
}

/// Scans a canonical signed numeral; the cursor ends on the first non-digit.
/// Fails exactly when no boundary-terminated canonical numeral of the type's
/// range starts here.
fn scan_i64(v: &Vec<char>, i: usize) -> (r: Option<(i64, usize)>)
    requires
        i <= v@.len(),
    ensures
        match r {
            Some(p) => {
                &&& i < p.1 <= v@.len()
                &&& v@.subrange(i as int, p.1 as int) == dec_str_int(p.0 as int)
                &&& (p.1 == v@.len() || !crate::text::is_digit(v@[p.1 as int]))
            },
            None => forall|m: i64, j: int|
                i <= j <= v@.len() ==> !(v@.subrange(i as int, j) == dec_str_int(m as int)
                    && (j == v@.len() || !crate::text::is_digit(v@[j]))),
        },
{
    let ghost sign: int = if i < v@.len() && v@[i as int] == '-' {
        1
    } else {
        0
    };
    let mut k = i;
    if k < v.len() && v[k] == '-' {
        k += 1;
    }
    while k < v.len() && digit_of(v[k]).is_some()
        invariant
            i + sign <= k <= v@.len(),
            i <= v@.len(),
            sign == (if i < v@.len() && v@[i as int] == '-' {
                1int
            } else {
                0int
            }),
            forall|m: int| i + sign <= m < k ==> crate::text::is_digit(#[trigger] v@[m]),
        decreases v@.len() - k,
    {
        k += 1;
    }
    let ghost stop = k as int;
    proof {
        assert(stop == v@.len() || !crate::text::is_digit(v@[stop]));
    }
    match parse_i64_region(v, i, k) {
        Some(n) => {
            proof {
                lemma_canonical_int_dec_str(v@.subrange(i as int, k as int));
            }
            Some((n, k))
        },
        None => {
            proof {
                assert forall|m: i64, j: int|
                    i <= j <= v@.len() implies !(v@.subrange(i as int, j) == dec_str_int(m as int)
                    && (j == v@.len() || !crate::text::is_digit(v@[j]))) by {
                    if v@.subrange(i as int, j) == dec_str_int(m as int) && (j == v@.len()
                        || !crate::text::is_digit(v@[j])) {
                        crate::text::lemma_dec_str_int_canonical(m as int);
                        let num = dec_str_int(m as int);
                        assert(j - i == num.len());
                        assert(j > i);
                        // The numeral's sign agrees with the scanned sign.
                        assert(v@[i as int] == num[0]);
                        if m < 0 {
                            assert(sign == 1);
                        } else {
                            assert(crate::text::is_digit(v@[i as int]));
                            assert(v@[i as int] != '-');
                            assert(sign == 0);
                        }
                        // The numeral ends exactly at the scanned stop.
                        assert forall|p: int|
                            i + sign <= p < j implies crate::text::is_digit(#[trigger] v@[p]) by {
                            assert(v@.subrange(i as int, j)[p - i] == v@[p]);
                            assert(dec_str_int(m as int)[p - i] == v@[p]);
                            assert(crate::text::is_digit(dec_str_int(m as int)[p - i]));
                        }
                        if j < stop {
                            assert(crate::text::is_digit(v@[j]));
                            assert(false);
                        }
                        if j > stop {
                            assert(crate::text::is_digit(v@[stop]));
                            assert(false);
                        }
                        // So the region the parse refused was this canonical
                        // numeral, which fits the type: contradiction.
                        assert(v@.subrange(i as int, stop) == num);
                        assert(crate::text::is_canonical_int(v@.subrange(i as int, stop)));
                        assert(crate::text::int_val(v@.subrange(i as int, stop)) == m as int);
                        assert(false);
                    }
                }
            }
            None
        },
    }
}

/// Renders one event as canonical JSON.
pub fn render_user_tag(t: &UserTag) -> (r: String)
    requires
        t@.wf(),
    ensures
        r@ == spec_render_tag(t@),
{
    let mut out: Vec<char> = Vec::new();
    push_tag(&mut out, t);
    proof {
        assert(Seq::<char>::empty() + spec_render_tag(t@) =~= spec_render_tag(t@));
    }
    string_from_chars(&out)
}

fn push_tag(out: &mut Vec<char>, t: &UserTag)
    requires
        t@.wf(),
    ensures
        final(out)@ == old(out)@ + spec_render_tag(t@),
{
    push_tag_head(out, t);
    push_tag_tail(out, t);
    proof {
        lemma_render_tag_halves(t@);
        assert(old(out)@ + spec_render_tag_head(t@) + spec_render_tag_tail(t@) =~= old(out)@
            + spec_render_tag(t@));
    }
}

fn push_tag_head(out: &mut Vec<char>, t: &UserTag)
    requires
        t@.wf(),
    ensures
        final(out)@ == old(out)@ + spec_render_tag_head(t@),
{
    push_chars(out, "{\"time\":\"");
    push_rfc3339(out, &t.time);
    push_chars(out, "\",\"cookie\":\"");
    push_chars(out, t.cookie.as_str());
    push_chars(out, "\",\"country\":\"");
    push_chars(out, t.country.as_str());
    push_chars(out, "\",\"device\":\"");
    push_chars(out, t.device.name());
    push_chars(out, "\",\"action\":\"");
    push_chars(out, t.action.name());
    push_chars(out, "\",\"origin\":\"");
    push_chars(out, t.origin.as_str());
}

fn push_tag_tail(out: &mut Vec<char>, t: &UserTag)
    requires
        t@.wf(),
    ensures
        final(out)@ == old(out)@ + spec_render_tag_tail(t@),
{
    push_chars(out, "\",\"product_info\":{\"product_id\":");
    crate::text::push_i64(out, t.product_info.product_id as i64);
    push_chars(out, ",\"brand_id\":\"");
    push_chars(out, t.product_info.brand_id.as_str());
    push_chars(out, "\",\"category_id\":\"");
    push_chars(out, t.product_info.category_id.as_str());
    push_chars(out, "\",\"price\":");
    crate::text::push_i64(out, t.product_info.price as i64);
    push_chars(out, "}}");
}

/// The rendering of an event stands at position `i`.
pub open spec fn render_begins_at(s: Seq<char>, i: int, tv: TagView) -> bool {
    &&& 0 <= i
    &&& i + spec_render_tag(tv).len() <= s.len()
    &&& s.subrange(i, i + spec_render_tag(tv).len()) == spec_render_tag(tv)
}

/// A piece of text stands at position `i`.
spec fn stands_at(s: Seq<char>, i: int, t: Seq<char>) -> bool {
    &&& 0 <= i
    &&& i + t.len() <= s.len()
    &&& s.subrange(i, i + t.len()) == t
}

proof fn lemma_stands_split(s: Seq<char>, i: int, a: Seq<char>, b: Seq<char>)
    requires
        stands_at(s, i, a + b),
    ensures
        s.subrange(i, i + a.len()) == a,
        stands_at(s, i + a.len(), b),
{
    let t = a + b;
    assert(s.subrange(i, i + t.len()) == t);
    assert forall|k: int| 0 <= k < a.len() implies s.subrange(i, i + a.len())[k] == a[k] by {
        assert(s.subrange(i, i + t.len())[k] == s[i + k]);
        assert(s.subrange(i, i + a.len())[k] == s[i + k]);
        assert(t[k] == a[k]);
    }
    assert(s.subrange(i, i + a.len()) =~= a);
    assert forall|k: int| 0 <= k < b.len() implies s.subrange(
        i + a.len(),
        i + a.len() + b.len(),
    )[k] == b[k] by {
        assert(s.subrange(i, i + t.len())[a.len() + k] == s[i + a.len() + k]);
        assert(s.subrange(i + a.len(), i + a.len() + b.len())[k] == s[i + a.len() + k]);
        assert(t[a.len() + k] == b[k]);
    }
    assert(s.subrange(i + a.len(), i + a.len() + b.len()) =~= b);
}

// The rendering of an event, as the suffix still unread once the pieces
// before each field are consumed.
spec fn tail_time(tv: TagView) -> Seq<char> {
    render_rfc3339(tv.time) + tail_lit_cookie(tv)
}

spec fn tail_lit_cookie(tv: TagView) -> Seq<char> {
    "\",\"cookie\":\""@ + tail_cookie(tv)
}

spec fn tail_cookie(tv: TagView) -> Seq<char> {
    tv.cookie + tail_lit_country(tv)
}

spec fn tail_lit_country(tv: TagView) -> Seq<char> {
    "\",\"country\":\""@ + tail_country(tv)
}

spec fn tail_country(tv: TagView) -> Seq<char> {
    tv.country + tail_lit_device(tv)
}

spec fn tail_lit_device(tv: TagView) -> Seq<char> {
    "\",\"device\":\""@ + tail_device(tv)
}

spec fn tail_device(tv: TagView) -> Seq<char> {
    device_name(tv.device) + tail_lit_action(tv)
}

spec fn tail_lit_action(tv: TagView) -> Seq<char> {
    "\",\"action\":\""@ + tail_action(tv)
}

spec fn tail_action(tv: TagView) -> Seq<char> {
    action_name(tv.action) + tail_lit_origin(tv)
}

spec fn tail_lit_origin(tv: TagView) -> Seq<char> {
    "\",\"origin\":\""@ + tail_origin(tv)
}

spec fn tail_origin(tv: TagView) -> Seq<char> {
    tv.origin + tail_lit_pid(tv)
}

spec fn tail_lit_pid(tv: TagView) -> Seq<char> {
    "\",\"product_info\":{\"product_id\":"@ + tail_pid(tv)
}

spec fn tail_pid(tv: TagView) -> Seq<char> {
    dec_str_int(tv.product_id as int) + tail_lit_brand(tv)
}

spec fn tail_lit_brand(tv: TagView) -> Seq<char> {
    ",\"brand_id\":\""@ + tail_brand(tv)
}

spec fn tail_brand(tv: TagView) -> Seq<char> {
    tv.brand_id + tail_lit_category(tv)
}

spec fn tail_lit_category(tv: TagView) -> Seq<char> {
    "\",\"category_id\":\""@ + tail_category(tv)
}

spec fn tail_category(tv: TagView) -> Seq<char> {
    tv.category_id + tail_lit_price(tv)
}

spec fn tail_lit_price(tv: TagView) -> Seq<char> {
    "\",\"price\":"@ + tail_price(tv)
}

spec fn tail_price(tv: TagView) -> Seq<char> {
    dec_str_int(tv.price as int) + "}}"@
}

/// Concatenation reassociates.
proof fn lemma_assoc(a: Seq<char>, b: Seq<char>, c: Seq<char>)
    ensures
        (a + b) + c == a + (b + c),
{
    assert((a + b) + c =~= a + (b + c));
}

/// The rendering, peeled from the front.
proof fn lemma_render_tag_tails(tv: TagView)
    ensures
        spec_render_tag(tv) == "{\"time\":\""@ + tail_time(tv),
        render_rfc3339(tv.time).len() == 24,
{
    assert(render_rfc3339(tv.time).len() == 24);
    let p01 = "{\"time\":\""@;
    let p02 = render_rfc3339(tv.time);
    let p03 = "\",\"cookie\":\""@;
    let p04 = tv.cookie;
    let p05 = "\",\"country\":\""@;
    let p06 = tv.country;
    let p07 = "\",\"device\":\""@;
    let p08 = device_name(tv.device);
    let p09 = "\",\"action\":\""@;
    let p10 = action_name(tv.action);
    let p11 = "\",\"origin\":\""@;
    let p12 = tv.origin;
    let p13 = "\",\"product_info\":{\"product_id\":"@;
    let p14 = dec_str_int(tv.product_id as int);
    let p15 = ",\"brand_id\":\""@;
    let p16 = tv.brand_id;
    let p17 = "\",\"category_id\":\""@;
    let p18 = tv.category_id;
    let p19 = "\",\"price\":"@;
    let p20 = dec_str_int(tv.price as int);
    let p21 = "}}"@;
    let l01 = p01;
    let l02 = l01 + p02;
    let l03 = l02 + p03;
    let l04 = l03 + p04;
    let l05 = l04 + p05;
    let l06 = l05 + p06;
    let l07 = l06 + p07;
    let l08 = l07 + p08;
    let l09 = l08 + p09;
    let l10 = l09 + p10;
    let l11 = l10 + p11;
    let l12 = l11 + p12;
    let l13 = l12 + p13;
    let l14 = l13 + p14;
    let l15 = l14 + p15;
    let l16 = l15 + p16;
    let l17 = l16 + p17;
    let l18 = l17 + p18;
    let l19 = l18 + p19;
    let l20 = l19 + p20;
    assert(spec_render_tag(tv) == l20 + p21);
    lemma_assoc(l19, p20, p21);
    lemma_assoc(l18, p19, tail_price(tv));
    lemma_assoc(l17, p18, tail_lit_price(tv));
    lemma_assoc(l16, p17, tail_category(tv));
    lemma_assoc(l15, p16, tail_lit_category(tv));
    lemma_assoc(l14, p15, tail_brand(tv));
    lemma_assoc(l13, p14, tail_lit_brand(tv));
    lemma_assoc(l12, p13, tail_pid(tv));
    lemma_assoc(l11, p12, tail_lit_pid(tv));
    lemma_assoc(l10, p11, tail_origin(tv));
    lemma_assoc(l09, p10, tail_lit_origin(tv));
    lemma_assoc(l08, p09, tail_action(tv));
    lemma_assoc(l07, p08, tail_lit_action(tv));
    lemma_assoc(l06, p07, tail_device(tv));
    lemma_assoc(l05, p06, tail_lit_device(tv));
    lemma_assoc(l04, p05, tail_country(tv));
    lemma_assoc(l03, p04, tail_lit_country(tv));
    lemma_assoc(l02, p03, tail_cookie(tv));
    lemma_assoc(l01, p02, tail_lit_cookie(tv));
}

/// Reads an event object's first fields: the timestamp, the cookie and the
/// country.  Fails exactly when no event rendering begins at `start`.
#[verifier::rlimit(100)]
#[verifier::spinoff_prover]
fn parse_tag_a(v: &Vec<char>, start: usize) -> (r: Option<(DateTime, String, String, usize)>)
    requires
        start <= v@.len(),
    ensures
        match r {
            Some(p) => {
                &&& start <= p.3 <= v@.len()
                &&& p.0.wf()
                &&& plain(p.1@) && plain(p.2@)
                &&& v@.subrange(start as int, p.3 as int) == "{\"time\":\""@ + render_rfc3339(p.0)
                    + "\",\"cookie\":\""@ + p.1@ + "\",\"country\":\""@ + p.2@
                &&& forall|tv: TagView|
                    tv.wf() && #[trigger] render_begins_at(v@, start as int, tv) ==> {
                        &&& tv.time == p.0
                        &&& tv.cookie == p.1@
                        &&& tv.country == p.2@
                        &&& stands_at(v@, p.3 as int, tail_lit_device(tv))
                        &&& p.3 + tail_lit_device(tv).len() == start + spec_render_tag(tv).len()
                    }
            },
            None => forall|tv: TagView|
                tv.wf() ==> !#[trigger] render_begins_at(v@, start as int, tv),
        },
{
    proof {
        reveal_strlit("\",\"country\":\"");
        reveal_strlit("\",\"device\":\"");
    }
    let c1 = match match_lit(v, start, "{\"time\":\"") {
        Some(j) => j,
        None => {
            proof {
                assert forall|tv: TagView|
                    tv.wf() implies !#[trigger] render_begins_at(v@, start as int, tv) by {
                    if render_begins_at(v@, start as int, tv) {
                        lemma_render_tag_tails(tv);
                        lemma_stands_split(v@, start as int, "{\"time\":\""@, tail_time(tv));
                    }
                }
            }
            return None;
        },
    };
    proof {
        assert forall|tv: TagView|
            tv.wf() && #[trigger] render_begins_at(v@, start as int, tv) implies stands_at(
            v@,
            c1 as int,
            tail_time(tv),
        ) && c1 + tail_time(tv).len() == start + spec_render_tag(tv).len() by {
            lemma_render_tag_tails(tv);
            lemma_stands_split(v@, start as int, "{\"time\":\""@, tail_time(tv));
        }
    }
    if v.len() - c1 < 24 {
        proof {
            assert forall|tv: TagView|
                tv.wf() implies !#[trigger] render_begins_at(v@, start as int, tv) by {
                if render_begins_at(v@, start as int, tv) {
                    lemma_render_tag_tails(tv);
                }
            }
        }
        return None;
    }
    let time = match parse_rfc3339_region(v, c1, c1 + 24) {
        Some(dt) => dt,
        None => {
            proof {
                assert forall|tv: TagView|
                    tv.wf() implies !#[trigger] render_begins_at(v@, start as int, tv) by {
                    if render_begins_at(v@, start as int, tv) {
                        lemma_render_tag_tails(tv);
                        lemma_stands_split(
                            v@,
                            c1 as int,
                            render_rfc3339(tv.time),
                            tail_lit_cookie(tv),
                        );
                    }
                }
            }
            return None;
        },
    };
    let c2 = c1 + 24;
    proof {
        assert forall|tv: TagView|
            tv.wf() && #[trigger] render_begins_at(v@, start as int, tv) implies tv.time == time
            && stands_at(v@, c2 as int, tail_lit_cookie(tv)) && c2 + tail_lit_cookie(tv).len()
            == start + spec_render_tag(tv).len() by {
            lemma_render_tag_tails(tv);
            lemma_stands_split(v@, c1 as int, render_rfc3339(tv.time), tail_lit_cookie(tv));
            crate::datetime::lemma_render_rfc3339_unique(tv.time, time);
        }
    }
    let c3 = match match_lit(v, c2, "\",\"cookie\":\"") {
        Some(j) => j,
        None => {
            proof {
                assert forall|tv: TagView|
                    tv.wf() implies !#[trigger] render_begins_at(v@, start as int, tv) by {
                    if render_begins_at(v@, start as int, tv) {
                        lemma_stands_split(v@, c2 as int, "\",\"cookie\":\""@, tail_cookie(tv));
                    }
                }
            }
            return None;
        },
    };
    proof {
        assert forall|tv: TagView|
            tv.wf() && #[trigger] render_begins_at(v@, start as int, tv) implies stands_at(
            v@,
            c3 as int,
            tail_cookie(tv),
        ) && c3 + tail_cookie(tv).len() == start + spec_render_tag(tv).len() by {
            lemma_stands_split(v@, c2 as int, "\",\"cookie\":\""@, tail_cookie(tv));
        }
    }
    let (cookie, c4) = match scan_plain(v, c3) {
        Some(p) => p,
        None => {
            proof {
                assert forall|tv: TagView|
                    tv.wf() implies !#[trigger] render_begins_at(v@, start as int, tv) by {
                    if render_begins_at(v@, start as int, tv) {
                        lemma_scan_expected(v@, c3 as int, tv.cookie, tail_lit_country(tv), '"');
                    }
                }
            }
            return None;
        },
    };
    proof {
        assert forall|tv: TagView|
            tv.wf() && #[trigger] render_begins_at(v@, start as int, tv) implies tv.cookie
            == cookie@ && stands_at(v@, c4 as int, tail_lit_country(tv)) && c4 + tail_lit_country(
            tv,
        ).len() == start + spec_render_tag(tv).len() by {
            lemma_scan_agrees(
                v@,
                c3 as int,
                c4 as int,
                cookie@,
                tv.cookie,
                tail_lit_country(tv),
                '"',
            );
        }
    }
    let c5 = match match_lit(v, c4, "\",\"country\":\"") {
        Some(j) => j,
        None => {
            proof {
                assert forall|tv: TagView|
                    tv.wf() implies !#[trigger] render_begins_at(v@, start as int, tv) by {
                    if render_begins_at(v@, start as int, tv) {
                        lemma_stands_split(
                            v@,
                            c4 as int,
                            "\",\"country\":\""@,
                            tail_country(tv),
                        );
                    }
                }
            }
            return None;
        },
    };
    proof {
        assert forall|tv: TagView|
            tv.wf() && #[trigger] render_begins_at(v@, start as int, tv) implies stands_at(
            v@,
            c5 as int,
            tail_country(tv),
        ) && c5 + tail_country(tv).len() == start + spec_render_tag(tv).len() by {
            lemma_stands_split(v@, c4 as int, "\",\"country\":\""@, tail_country(tv));
        }
    }
    let (country, c6) = match scan_plain(v, c5) {
        Some(p) => p,
        None => {
            proof {
                assert forall|tv: TagView|
                    tv.wf() implies !#[trigger] render_begins_at(v@, start as int, tv) by {
                    if render_begins_at(v@, start as int, tv) {
                        lemma_scan_expected(v@, c5 as int, tv.country, tail_lit_device(tv), '"');
                    }
                }
            }
            return None;
        },
    };
    proof {
        assert forall|tv: TagView|
            tv.wf() && #[trigger] render_begins_at(v@, start as int, tv) implies tv.country
            == country@ && stands_at(v@, c6 as int, tail_lit_device(tv)) && c6 + tail_lit_device(
            tv,
        ).len() == start + spec_render_tag(tv).len() by {
            lemma_scan_agrees(
                v@,
                c5 as int,
                c6 as int,
                country@,
                tv.country,
                tail_lit_device(tv),
                '"',
            );
        }
    }
    proof {
        lemma_subrange_concat(v@, start as int, c1 as int, c2 as int);
        lemma_subrange_concat(v@, start as int, c2 as int, c3 as int);
        lemma_subrange_concat(v@, start as int, c3 as int, c4 as int);
        lemma_subrange_concat(v@, start as int, c4 as int, c5 as int);
        lemma_subrange_concat(v@, start as int, c5 as int, c6 as int);
    }
    Some((time, cookie, country, c6))
}

/// No plain run ends in a quote here, yet the rendering demands one.
proof fn lemma_scan_expected(s: Seq<char>, c: int, content: Seq<char>, rest: Seq<char>, quote: char)
    requires
        stands_at(s, c, content + rest),
        plain(content),
        rest.len() >= 1,
        rest[0] == quote,
        quote == '"',
    ensures
        c + content.len() < s.len(),
        s[c + content.len()] == '"',
        plain(s.subrange(c, c + content.len())),
{
    lemma_stands_split(s, c, content, rest);
    let q = c + content.len();
    assert(s.subrange(q, q + rest.len())[0] == s[q]);
}

/// The scanner's stop is the quote the rendering put after the content, so
/// the content read is the rendering's.
proof fn lemma_scan_agrees(
    s: Seq<char>,
    c: int,
    stop: int,
    got: Seq<char>,
    content: Seq<char>,
    rest: Seq<char>,
    quote: char,
)
    requires
        stands_at(s, c, content + rest),
        plain(content),
        rest.len() >= 1,
        rest[0] == quote,
        quote == '"',
        c <= stop < s.len(),
        s.subrange(c, stop) == got,
        plain(got),
        s[stop] == '"',
    ensures
        got == content,
        stands_at(s, stop, rest),
        stop + rest.len() == c + (content + rest).len(),
{
    lemma_stands_split(s, c, content, rest);
    let q = c + content.len();
    assert(s.subrange(q, q + rest.len())[0] == s[q]);
    assert(s[q] == '"');
    if stop < q {
        assert(s.subrange(c, q)[stop - c] == s[stop]);
        assert(plain_char(s[stop]));
        assert(false);
    }
    if stop > q {
        assert(got[q - c] == s[q]);
        assert(plain_char(s[q]));
        assert(false);
    }
    assert(got =~= content);
}

/// Reads an event object's device, after the first fields.  Fails exactly
/// when no event rendering begins at `start`.
#[verifier::rlimit(100)]
#[verifier::spinoff_prover]
fn parse_tag_b(v: &Vec<char>, start: usize) -> (r: Option<
    (DateTime, String, String, Device, usize),
>)
    requires
        start <= v@.len(),
    ensures
        match r {
            Some(p) => {
                &&& start <= p.4 <= v@.len()
                &&& p.0.wf()
                &&& plain(p.1@) && plain(p.2@)
                &&& v@.subrange(start as int, p.4 as int) == "{\"time\":\""@ + render_rfc3339(p.0)
                    + "\",\"cookie\":\""@ + p.1@ + "\",\"country\":\""@ + p.2@
                    + "\",\"device\":\""@ + device_name(p.3)
                &&& forall|tv: TagView|
                    tv.wf() && #[trigger] render_begins_at(v@, start as int, tv) ==> {
                        &&& tv.time == p.0
                        &&& tv.cookie == p.1@
                        &&& tv.country == p.2@
                        &&& tv.device == p.3
                        &&& stands_at(v@, p.4 as int, tail_lit_action(tv))
                        &&& p.4 + tail_lit_action(tv).len() == start + spec_render_tag(tv).len()
                    }
            },
            None => forall|tv: TagView|
                tv.wf() ==> !#[trigger] render_begins_at(v@, start as int, tv),
        },
{
    proof {
        reveal_strlit("PC");
        reveal_strlit("MOBILE");
        reveal_strlit("TV");
    }
    let (time, cookie, country, c6) = match parse_tag_a(v, start) {
        Some(p) => p,
        None => {
            return None;
        },
    };
    let c7 = match match_lit(v, c6, "\",\"device\":\"") {
        Some(j) => j,
        None => {
            proof {
                assert forall|tv: TagView|
                    tv.wf() implies !#[trigger] render_begins_at(v@, start as int, tv) by {
                    if render_begins_at(v@, start as int, tv) {
                        lemma_stands_split(v@, c6 as int, "\",\"device\":\""@, tail_device(tv));
                    }
                }
            }
            return None;
        },
    };
    proof {
        assert forall|tv: TagView|
            tv.wf() && #[trigger] render_begins_at(v@, start as int, tv) implies stands_at(
            v@,
            c7 as int,
            tail_device(tv),
        ) && c7 + tail_device(tv).len() == start + spec_render_tag(tv).len() by {
            lemma_stands_split(v@, c6 as int, "\",\"device\":\""@, tail_device(tv));
        }
    }
    let (device, c8) = if let Some(j) = match_lit(v, c7, "PC") {
        (Device::Pc, j)
    } else if let Some(j) = match_lit(v, c7, "MOBILE") {
        (Device::Mobile, j)
    } else if let Some(j) = match_lit(v, c7, "TV") {
        (Device::Tv, j)
    } else {
        proof {
            assert forall|tv: TagView|
                tv.wf() implies !#[trigger] render_begins_at(v@, start as int, tv) by {
                if render_begins_at(v@, start as int, tv) {
                    lemma_stands_split(v@, c7 as int, device_name(tv.device), tail_lit_action(tv));
                }
            }
        }
        return None;
    };
    proof {
        assert forall|tv: TagView|
            tv.wf() && #[trigger] render_begins_at(v@, start as int, tv) implies tv.device
            == device && stands_at(v@, c8 as int, tail_lit_action(tv)) && c8 + tail_lit_action(
            tv,
        ).len() == start + spec_render_tag(tv).len() by {
            lemma_stands_split(v@, c7 as int, device_name(tv.device), tail_lit_action(tv));
            let name = device_name(tv.device);
            assert(v@[c7 as int] == name[0]) by {
                assert(v@.subrange(c7 as int, c7 + name.len())[0] == v@[c7 as int]);
            }
            assert(v@.subrange(c7 as int, c8 as int)[0] == v@[c7 as int]);
            assert(tv.device == device);
        }
    }
    proof {
        lemma_subrange_concat(v@, start as int, c6 as int, c7 as int);
        lemma_subrange_concat(v@, start as int, c7 as int, c8 as int);
    }
    Some((time, cookie, country, device, c8))
}

/// Reads an event object's action, after the device.  Fails exactly when no
/// event rendering begins at `start`.
#[verifier::rlimit(100)]
#[verifier::spinoff_prover]
fn parse_tag_b2(v: &Vec<char>, start: usize) -> (r: Option<
    (DateTime, String, String, Device, Action, usize),
>)
    requires
        start <= v@.len(),
    ensures
        match r {
            Some(p) => {
                &&& start <= p.5 <= v@.len()
                &&& p.0.wf()
                &&& plain(p.1@) && plain(p.2@)
                &&& v@.subrange(start as int, p.5 as int) == "{\"time\":\""@ + render_rfc3339(p.0)
                    + "\",\"cookie\":\""@ + p.1@ + "\",\"country\":\""@ + p.2@
                    + "\",\"device\":\""@ + device_name(p.3) + "\",\"action\":\""@ + action_name(
                    p.4,
                )
                &&& forall|tv: TagView|
                    tv.wf() && #[trigger] render_begins_at(v@, start as int, tv) ==> {
                        &&& tv.time == p.0
                        &&& tv.cookie == p.1@
                        &&& tv.country == p.2@
                        &&& tv.device == p.3
                        &&& tv.action == p.4
                        &&& stands_at(v@, p.5 as int, tail_lit_origin(tv))
                        &&& p.5 + tail_lit_origin(tv).len() == start + spec_render_tag(tv).len()
                    }
            },
            None => forall|tv: TagView|
                tv.wf() ==> !#[trigger] render_begins_at(v@, start as int, tv),
        },
{
    proof {
        reveal_strlit("VIEW");
        reveal_strlit("BUY");
    }
    let (time, cookie, country, device, c8) = match parse_tag_b(v, start) {
        Some(p) => p,
        None => {
            return None;
        },
    };
    let c9 = match match_lit(v, c8, "\",\"action\":\"") {
        Some(j) => j,
        None => {
            proof {
                assert forall|tv: TagView|
                    tv.wf() implies !#[trigger] render_begins_at(v@, start as int, tv) by {
                    if render_begins_at(v@, start as int, tv) {
                        lemma_stands_split(v@, c8 as int, "\",\"action\":\""@, tail_action(tv));
                    }
                }
            }
            return None;
        },
    };
    proof {
        assert forall|tv: TagView|
            tv.wf() && #[trigger] render_begins_at(v@, start as int, tv) implies stands_at(
            v@,
            c9 as int,
            tail_action(tv),
        ) && c9 + tail_action(tv).len() == start + spec_render_tag(tv).len() by {
            lemma_stands_split(v@, c8 as int, "\",\"action\":\""@, tail_action(tv));
        }
    }
    let (action, c10) = if let Some(j) = match_lit(v, c9, "VIEW") {
        (Action::View, j)
    } else if let Some(j) = match_lit(v, c9, "BUY") {
        (Action::Buy, j)
    } else {
        proof {
            assert forall|tv: TagView|
                tv.wf() implies !#[trigger] render_begins_at(v@, start as int, tv) by {
                if render_begins_at(v@, start as int, tv) {
                    lemma_stands_split(v@, c9 as int, action_name(tv.action), tail_lit_origin(tv));
                }
            }
        }
        return None;
    };
    proof {
        assert forall|tv: TagView|
            tv.wf() && #[trigger] render_begins_at(v@, start as int, tv) implies tv.action
            == action && stands_at(v@, c10 as int, tail_lit_origin(tv)) && c10 + tail_lit_origin(
            tv,
        ).len() == start + spec_render_tag(tv).len() by {
            lemma_stands_split(v@, c9 as int, action_name(tv.action), tail_lit_origin(tv));
            let name = action_name(tv.action);
            assert(v@[c9 as int] == name[0]) by {
                assert(v@.subrange(c9 as int, c9 + name.len())[0] == v@[c9 as int]);
            }
            assert(v@.subrange(c9 as int, c10 as int)[0] == v@[c9 as int]);
            assert(tv.action == action);
        }
    }
    proof {
        lemma_subrange_concat(v@, start as int, c8 as int, c9 as int);
        lemma_subrange_concat(v@, start as int, c9 as int, c10 as int);
    }
    Some((time, cookie, country, device, action, c10))
}

/// Reads the fixed-order head of an event object: everything through the
/// origin field.  Fails exactly when no event rendering begins at `start`.
#[verifier::rlimit(100)]
#[verifier::spinoff_prover]
fn parse_tag_head(v: &Vec<char>, start: usize) -> (r: Option<
    (DateTime, String, String, Device, Action, String, usize),
>)
    requires
        start <= v@.len(),
    ensures
        match r {
            Some(p) => {
                &&& start <= p.6 <= v@.len()
                &&& p.0.wf()
                &&& plain(p.1@) && plain(p.2@) && plain(p.5@)
                &&& v@.subrange(start as int, p.6 as int) == "{\"time\":\""@ + render_rfc3339(p.0)
                    + "\",\"cookie\":\""@ + p.1@ + "\",\"country\":\""@ + p.2@
                    + "\",\"device\":\""@ + device_name(p.3) + "\",\"action\":\""@ + action_name(
                    p.4,
                ) + "\",\"origin\":\""@ + p.5@
                &&& forall|tv: TagView|
                    tv.wf() && #[trigger] render_begins_at(v@, start as int, tv) ==> {
                        &&& tv.time == p.0
                        &&& tv.cookie == p.1@
                        &&& tv.country == p.2@
                        &&& tv.device == p.3
                        &&& tv.action == p.4
                        &&& tv.origin == p.5@
                        &&& stands_at(v@, p.6 as int, tail_lit_pid(tv))
                        &&& p.6 + tail_lit_pid(tv).len() == start + spec_render_tag(tv).len()
                    }
            },
            None => forall|tv: TagView|
                tv.wf() ==> !#[trigger] render_begins_at(v@, start as int, tv),
        },
{
    proof {
        reveal_strlit("\",\"product_info\":{\"product_id\":");
    }
    let (time, cookie, country, device, action, c10) = match parse_tag_b2(v, start) {
        Some(p) => p,
        None => {
            return None;
        },
    };
    let c11 = match match_lit(v, c10, "\",\"origin\":\"") {
        Some(j) => j,
        None => {
            proof {
                assert forall|tv: TagView|
                    tv.wf() implies !#[trigger] render_begins_at(v@, start as int, tv) by {
                    if render_begins_at(v@, start as int, tv) {
                        lemma_stands_split(v@, c10 as int, "\",\"origin\":\""@, tail_origin(tv));
                    }
                }
            }
            return None;
        },
    };
    proof {
        assert forall|tv: TagView|
            tv.wf() && #[trigger] render_begins_at(v@, start as int, tv) implies stands_at(
            v@,
            c11 as int,
            tail_origin(tv),
        ) && c11 + tail_origin(tv).len() == start + spec_render_tag(tv).len() by {
            lemma_stands_split(v@, c10 as int, "\",\"origin\":\""@, tail_origin(tv));
        }
    }
    let (origin, c12) = match scan_plain(v, c11) {
        Some(p) => p,
        None => {
            proof {
                assert forall|tv: TagView|
                    tv.wf() implies !#[trigger] render_begins_at(v@, start as int, tv) by {
                    if render_begins_at(v@, start as int, tv) {
                        lemma_scan_expected(v@, c11 as int, tv.origin, tail_lit_pid(tv), '"');
                    }
                }
            }
            return None;
        },
    };
    proof {
        assert forall|tv: TagView|
            tv.wf() && #[trigger] render_begins_at(v@, start as int, tv) implies tv.origin
            == origin@ && stands_at(v@, c12 as int, tail_lit_pid(tv)) && c12 + tail_lit_pid(
            tv,
        ).len() == start + spec_render_tag(tv).len() by {
            lemma_scan_agrees(
                v@,
                c11 as int,
                c12 as int,
                origin@,
                tv.origin,
                tail_lit_pid(tv),
                '"',
            );
        }
    }
    proof {
        lemma_subrange_concat(v@, start as int, c10 as int, c11 as int);
        lemma_subrange_concat(v@, start as int, c11 as int, c12 as int);
    }
    Some((time, cookie, country, device, action, origin, c12))
}

/// Reads an event object's product identifier and brand, after the head.
/// Fails exactly when no event rendering begins at `start`.
#[verifier::rlimit(100)]
#[verifier::spinoff_prover]
fn parse_tag_c(v: &Vec<char>, start: usize) -> (r: Option<
    (DateTime, String, String, Device, Action, String, i64, String, usize),
>)
    requires
        start <= v@.len(),
    ensures
        match r {
            Some(p) => {
                &&& start <= p.8 <= v@.len()
                &&& p.0.wf()
                &&& plain(p.1@) && plain(p.2@) && plain(p.5@) && plain(p.7@)
                &&& i32::MIN <= p.6 <= i32::MAX
                &&& v@.subrange(start as int, p.8 as int) == "{\"time\":\""@ + render_rfc3339(p.0)
                    + "\",\"cookie\":\""@ + p.1@ + "\",\"country\":\""@ + p.2@
                    + "\",\"device\":\""@ + device_name(p.3) + "\",\"action\":\""@ + action_name(
                    p.4,
                ) + "\",\"origin\":\""@ + p.5@ + "\",\"product_info\":{\"product_id\":"@
                    + dec_str_int(p.6 as int) + ",\"brand_id\":\""@ + p.7@
                &&& forall|tv: TagView|
                    tv.wf() && #[trigger] render_begins_at(v@, start as int, tv) ==> {
                        &&& tv.time == p.0
                        &&& tv.cookie == p.1@
                        &&& tv.country == p.2@
                        &&& tv.device == p.3
                        &&& tv.action == p.4
                        &&& tv.origin == p.5@
                        &&& tv.product_id == p.6
                        &&& tv.brand_id == p.7@
                        &&& stands_at(v@, p.8 as int, tail_lit_category(tv))
                        &&& p.8 + tail_lit_category(tv).len() == start + spec_render_tag(tv).len()
                    }
            },
            None => forall|tv: TagView|
                tv.wf() ==> !#[trigger] render_begins_at(v@, start as int, tv),
        },
{
    proof {
        reveal_strlit(",\"brand_id\":\"");
        reveal_strlit("\",\"category_id\":\"");
    }
    let (time, cookie, country, device, action, origin, c12) = match parse_tag_head(v, start) {
        Some(p) => p,
        None => {
            return None;
        },
    };
    let c13 = match match_lit(v, c12, "\",\"product_info\":{\"product_id\":") {
        Some(j) => j,
        None => {
            proof {
                assert forall|tv: TagView|
                    tv.wf() implies !#[trigger] render_begins_at(v@, start as int, tv) by {
                    if render_begins_at(v@, start as int, tv) {
                        lemma_stands_split(
                            v@,
                            c12 as int,
                            "\",\"product_info\":{\"product_id\":"@,
                            tail_pid(tv),
                        );
                    }
                }
            }
            return None;
        },
    };
    proof {
        assert forall|tv: TagView|
            tv.wf() && #[trigger] render_begins_at(v@, start as int, tv) implies stands_at(
            v@,
            c13 as int,
            tail_pid(tv),
        ) && c13 + tail_pid(tv).len() == start + spec_render_tag(tv).len() by {
            lemma_stands_split(
                v@,
                c12 as int,
                "\",\"product_info\":{\"product_id\":"@,
                tail_pid(tv),
            );
        }
    }
    let (pid, c14) = match scan_i64(v, c13) {
        Some(p) => p,
        None => {
            proof {
                assert forall|tv: TagView|
                    tv.wf() implies !#[trigger] render_begins_at(v@, start as int, tv) by {
                    if render_begins_at(v@, start as int, tv) {
                        lemma_stands_split(
                            v@,
                            c13 as int,
                            dec_str_int(tv.product_id as int),
                            tail_lit_brand(tv),
                        );
                        let q = c13 + dec_str_int(tv.product_id as int).len();
                        assert(v@.subrange(q, q + tail_lit_brand(tv).len())[0] == v@[q]);
                        assert(v@[q] == ',');
                    }
                }
            }
            return None;
        },
    };
    proof {
        assert forall|tv: TagView|
            tv.wf() && #[trigger] render_begins_at(v@, start as int, tv) implies tv.product_id
            == pid && stands_at(v@, c14 as int, tail_lit_brand(tv)) && c14 + tail_lit_brand(
            tv,
        ).len() == start + spec_render_tag(tv).len() by {
            lemma_numeral_step(
                v@,
                c13 as int,
                c14 as int,
                pid as int,
                tv.product_id as int,
                tail_lit_brand(tv),
                ',',
            );
        }
    }
    if pid < i32::MIN as i64 || pid > i32::MAX as i64 {
        proof {
            assert forall|tv: TagView|
                tv.wf() implies !#[trigger] render_begins_at(v@, start as int, tv) by {}
        }
        return None;
    }
    let c15 = match match_lit(v, c14, ",\"brand_id\":\"") {
        Some(j) => j,
        None => {
            proof {
                assert forall|tv: TagView|
                    tv.wf() implies !#[trigger] render_begins_at(v@, start as int, tv) by {
                    if render_begins_at(v@, start as int, tv) {
                        lemma_stands_split(v@, c14 as int, ",\"brand_id\":\""@, tail_brand(tv));
                    }
                }
            }
            return None;
        },
    };
    proof {
        assert forall|tv: TagView|
            tv.wf() && #[trigger] render_begins_at(v@, start as int, tv) implies stands_at(
            v@,
            c15 as int,
            tail_brand(tv),
        ) && c15 + tail_brand(tv).len() == start + spec_render_tag(tv).len() by {
            lemma_stands_split(v@, c14 as int, ",\"brand_id\":\""@, tail_brand(tv));
        }
    }
    let (brand_id, c16) = match scan_plain(v, c15) {
        Some(p) => p,
        None => {
            proof {
                assert forall|tv: TagView|
                    tv.wf() implies !#[trigger] render_begins_at(v@, start as int, tv) by {
                    if render_begins_at(v@, start as int, tv) {
                        lemma_scan_expected(v@, c15 as int, tv.brand_id, tail_lit_category(tv), '"');
                    }
                }
            }
            return None;
        },
    };
    proof {
        assert forall|tv: TagView|
            tv.wf() && #[trigger] render_begins_at(v@, start as int, tv) implies tv.brand_id
            == brand_id@ && stands_at(v@, c16 as int, tail_lit_category(tv)) && c16
            + tail_lit_category(tv).len() == start + spec_render_tag(tv).len() by {
            lemma_scan_agrees(
                v@,
                c15 as int,
                c16 as int,
                brand_id@,
                tv.brand_id,
                tail_lit_category(tv),
                '"',
            );
        }
    }
    proof {
        lemma_subrange_concat(v@, start as int, c12 as int, c13 as int);
        lemma_subrange_concat(v@, start as int, c13 as int, c14 as int);
        lemma_subrange_concat(v@, start as int, c14 as int, c15 as int);
        lemma_subrange_concat(v@, start as int, c15 as int, c16 as int);
    }
    Some((time, cookie, country, device, action, origin, pid, brand_id, c16))
}

/// Reads one event object beginning at `start`; whatever is accepted is
/// exactly the canonical rendering of the returned event, and it is the only
/// event whose rendering begins there.  Fails exactly when no event
/// rendering begins at `start`.
#[verifier::rlimit(100)]
#[verifier::spinoff_prover]
pub fn parse_tag_region(v: &Vec<char>, start: usize) -> (r: Option<(UserTag, usize)>)
    requires
        start <= v@.len(),
    ensures
        match r {
            Some(p) => {
                &&& start <= p.1 <= v@.len()
                &&& p.0@.wf()
                &&& v@.subrange(start as int, p.1 as int) == spec_render_tag(p.0@)
                &&& forall|tv: TagView|
                    tv.wf() && #[trigger] render_begins_at(v@, start as int, tv) ==> tv == p.0@
                        && start + spec_render_tag(tv).len() == p.1
            },
            None => forall|tv: TagView|
                tv.wf() ==> !#[trigger] render_begins_at(v@, start as int, tv),
        },
{
    proof {
        reveal_strlit("\",\"category_id\":\"");
        reveal_strlit("\",\"price\":");
        reveal_strlit("}}");
    }
    let (time, cookie, country, device, action, origin, pid, brand_id, c16) = match parse_tag_c(
        v,
        start,
    ) {
        Some(p) => p,
        None => {
            return None;
        },
    };
    let c17 = match match_lit(v, c16, "\",\"category_id\":\"") {
        Some(j) => j,
        None => {
            proof {
                assert forall|tv: TagView|
                    tv.wf() implies !#[trigger] render_begins_at(v@, start as int, tv) by {
                    if render_begins_at(v@, start as int, tv) {
                        lemma_stands_split(
                            v@,
                            c16 as int,
                            "\",\"category_id\":\""@,
                            tail_category(tv),
                        );
                    }
                }
            }
            return None;
        },
    };
    proof {
        assert forall|tv: TagView|
            tv.wf() && #[trigger] render_begins_at(v@, start as int, tv) implies stands_at(
            v@,
            c17 as int,
            tail_category(tv),
        ) && c17 + tail_category(tv).len() == start + spec_render_tag(tv).len() by {
            lemma_stands_split(v@, c16 as int, "\",\"category_id\":\""@, tail_category(tv));
        }
    }
    let (category_id, c18) = match scan_plain(v, c17) {
        Some(p) => p,
        None => {
            proof {
                assert forall|tv: TagView|
                    tv.wf() implies !#[trigger] render_begins_at(v@, start as int, tv) by {
                    if render_begins_at(v@, start as int, tv) {
                        lemma_scan_expected(v@, c17 as int, tv.category_id, tail_lit_price(tv), '"');
                    }
                }
            }
            return None;
        },
    };
    proof {
        assert forall|tv: TagView|
            tv.wf() && #[trigger] render_begins_at(v@, start as int, tv) implies tv.category_id
            == category_id@ && stands_at(v@, c18 as int, tail_lit_price(tv)) && c18
            + tail_lit_price(tv).len() == start + spec_render_tag(tv).len() by {
            lemma_scan_agrees(
                v@,
                c17 as int,
                c18 as int,
                category_id@,
                tv.category_id,
                tail_lit_price(tv),
                '"',
            );
        }
    }
    let c19 = match match_lit(v, c18, "\",\"price\":") {
        Some(j) => j,
        None => {
            proof {
                assert forall|tv: TagView|
                    tv.wf() implies !#[trigger] render_begins_at(v@, start as int, tv) by {
                    if render_begins_at(v@, start as int, tv) {
                        lemma_stands_split(v@, c18 as int, "\",\"price\":"@, tail_price(tv));
                    }
                }
            }
            return None;
        },
    };
    proof {
        assert forall|tv: TagView|
            tv.wf() && #[trigger] render_begins_at(v@, start as int, tv) implies stands_at(
            v@,
            c19 as int,
            tail_price(tv),
        ) && c19 + tail_price(tv).len() == start + spec_render_tag(tv).len() by {
            lemma_stands_split(v@, c18 as int, "\",\"price\":"@, tail_price(tv));
        }
    }
    let (price, c20) = match scan_i64(v, c19) {
        Some(p) => p,
        None => {
            proof {
                assert forall|tv: TagView|
                    tv.wf() implies !#[trigger] render_begins_at(v@, start as int, tv) by {
                    if render_begins_at(v@, start as int, tv) {
                        lemma_stands_split(v@, c19 as int, dec_str_int(tv.price as int), "}}"@);
                        let q = c19 + dec_str_int(tv.price as int).len();
                        assert(v@.subrange(q, q + "}}"@.len())[0] == v@[q]);
                        assert(v@[q] == '}');
                    }
                }
            }
            return None;
        },
    };
    proof {
        assert forall|tv: TagView|
            tv.wf() && #[trigger] render_begins_at(v@, start as int, tv) implies tv.price == price
            && stands_at(v@, c20 as int, "}}"@) && c20 + "}}"@.len() == start + spec_render_tag(
            tv,
        ).len() by {
            lemma_numeral_step(
                v@,
                c19 as int,
                c20 as int,
                price as int,
                tv.price as int,
                "}}"@,
                '}',
            );
        }
    }
    if price < 0 || price > i32::MAX as i64 {
        proof {
            assert forall|tv: TagView|
                tv.wf() implies !#[trigger] render_begins_at(v@, start as int, tv) by {}
        }
        return None;
    }
    let c21 = match match_lit(v, c20, "}}") {
        Some(j) => j,
        None => {
            proof {
                assert forall|tv: TagView|
                    tv.wf() implies !#[trigger] render_begins_at(v@, start as int, tv) by {}
            }
            return None;
        },
    };
    let t = UserTag {
        time,
        cookie,
        country,
        device,
        action,
        origin,
        product_info: ProductInfo {
            product_id: pid as i32,
            brand_id,
            category_id,
            price: price as i32,
        },
    };
    proof {
        lemma_subrange_concat(v@, start as int, c16 as int, c17 as int);
        lemma_subrange_concat(v@, start as int, c17 as int, c18 as int);
        lemma_subrange_concat(v@, start as int, c18 as int, c19 as int);
        lemma_subrange_concat(v@, start as int, c19 as int, c20 as int);
        lemma_subrange_concat(v@, start as int, c20 as int, c21 as int);
        assert(v@.subrange(start as int, c21 as int) =~= spec_render_tag(t@));
        assert forall|tv: TagView|
            tv.wf() && #[trigger] render_begins_at(v@, start as int, tv) implies tv == t@ && start
            + spec_render_tag(tv).len() == c21 by {
            assert(tv.time == t@.time && tv.cookie == t@.cookie && tv.country == t@.country
                && tv.device == t@.device && tv.action == t@.action && tv.origin == t@.origin
                && tv.product_id == t@.product_id && tv.brand_id == t@.brand_id && tv.category_id
                == t@.category_id && tv.price == t@.price);
        }
    }
    Some((t, c21))
}

/// A boundary-terminated numeral the scanner found matches the one the
/// rendering put there, and the cursors agree.
proof fn lemma_numeral_step(
    s: Seq<char>,
    i: int,
    j: int,
    n: int,
    m: int,
    rest: Seq<char>,
    sep: char,
)
    requires
        i < j <= s.len(),
        s.subrange(i, j) == dec_str_int(n),
        j == s.len() || !crate::text::is_digit(s[j]),
        stands_at(s, i, dec_str_int(m) + rest),
        rest.len() >= 1,
        rest[0] == sep,
        !crate::text::is_digit(sep),
    ensures
        n == m,
        stands_at(s, i + dec_str_int(m).len(), rest),
        j == i + dec_str_int(m).len(),
{
    lemma_stands_split(s, i, dec_str_int(m), rest);
    let q = i + dec_str_int(m).len();
    assert(s.subrange(q, q + rest.len())[0] == s[q]);
    assert(s[q] == sep);
    crate::text::lemma_dec_str_int_canonical(n);
    crate::text::lemma_dec_str_int_canonical(m);
    assert(s[i] == dec_str_int(n)[0]) by {
        assert(s.subrange(i, j)[0] == s[i]);
    }
    assert(s[i] == dec_str_int(m)[0]) by {
        assert(s.subrange(i, q)[0] == s[i]);
    }
    let sign: int = if s[i] == '-' {
        1
    } else {
        0
    };
    assert(n < 0 <==> s[i] == '-') by {
        if n >= 0 {
            assert(crate::text::is_digit(dec_str_int(n)[0]));
        }
    }
    assert(m < 0 <==> s[i] == '-') by {
        if m >= 0 {
            assert(crate::text::is_digit(dec_str_int(m)[0]));
        }
    }
    if j < q {
        assert(crate::text::is_digit(dec_str_int(m)[j - i]));
        assert(s.subrange(i, q)[j - i] == s[j]);
        assert(false);
    }
    if j > q {
        assert(crate::text::is_digit(dec_str_int(n)[q - i]));
        assert(s.subrange(i, j)[q - i] == s[q]);
        assert(false);
    }
    assert(dec_str_int(n) == dec_str_int(m));
    assert(crate::text::int_val(dec_str_int(n)) == n);
    assert(crate::text::int_val(dec_str_int(m)) == m);
}

/// Reads one event: succeeds exactly on the canonical rendering of a
/// well-formed event, and returns that event.
pub fn parse_user_tag(s: &str) -> (r: Option<UserTag>)
    ensures
        match r {
            Some(t) => t@.wf() && s@ == spec_render_tag(t@),
            None => forall|tv: TagView| tv.wf() ==> s@ != spec_render_tag(tv),
        },
{
    let v = chars_of(s);
    let (t, end) = match parse_tag_region(&v, 0) {
        Some(p) => p,
        None => {
            proof {
                assert forall|tv: TagView| tv.wf() implies s@ != spec_render_tag(tv) by {
                    if s@ == spec_render_tag(tv) {
                        assert(v@.subrange(0, spec_render_tag(tv).len() as int) =~= v@);
                        assert(render_begins_at(v@, 0, tv));
                    }
                }
            }
            return None;
        },
    };
    if end != v.len() {
        proof {
            assert forall|tv: TagView| tv.wf() implies s@ != spec_render_tag(tv) by {
                if s@ == spec_render_tag(tv) {
                    assert(v@.subrange(0, spec_render_tag(tv).len() as int) =~= v@);
                    assert(render_begins_at(v@, 0, tv));
                }
            }
        }
        return None;
    }
    proof {
        assert(v@.subrange(0, end as int) =~= s@);
    }
    Some(t)
}

/// The body of a rendered list, read from the front: the events from the
/// `k`-th on, comma-separated, and the closing bracket.
spec fn list_from(ts: Seq<TagView>, k: int) -> Seq<char>
    decreases ts.len() - k,
{
    if k < 0 || k >= ts.len() {
        "]"@
    } else if k == ts.len() - 1 {
        spec_render_tag(ts[k]) + "]"@
    } else {
        spec_render_tag(ts[k]) + (","@ + list_from(ts, k + 1))
    }
}

/// The back-recursive body, unrolled at the front.
proof fn lemma_body_front(ts: Seq<TagView>)
    requires
        ts.len() >= 1,
    ensures
        ts.len() == 1 ==> tags_body(ts) == spec_render_tag(ts[0]),
        ts.len() > 1 ==> tags_body(ts) == spec_render_tag(ts[0]) + ","@ + tags_body(
            ts.drop_first(),
        ),
    decreases ts.len(),
{
    if ts.len() > 1 {
        let dl = ts.drop_last();
        lemma_body_front(dl);
        let df = ts.drop_first();
        assert(dl[0] == ts[0]);
        assert(df.drop_last() =~= dl.drop_first());
        assert(df.last() == ts.last());
        if ts.len() == 2 {
            assert(tags_body(df) == spec_render_tag(df[0]));
            assert(df[0] == ts.last());
        } else {
            assert(dl.drop_first() =~= df.drop_last());
            lemma_body_front(dl);
            lemma_assoc(spec_render_tag(ts[0]), ","@, tags_body(dl.drop_first()));
            lemma_assoc(
                spec_render_tag(ts[0]) + ","@,
                tags_body(dl.drop_first()),
                ","@,
            );
            assert(tags_body(ts) == tags_body(dl) + ","@ + spec_render_tag(ts.last()));
            assert(tags_body(dl) == spec_render_tag(ts[0]) + ","@ + tags_body(dl.drop_first()));
            assert(tags_body(df) == tags_body(df.drop_last()) + ","@ + spec_render_tag(df.last()));
            assert((spec_render_tag(ts[0]) + ","@ + tags_body(dl.drop_first())) + ","@
                + spec_render_tag(ts.last()) =~= spec_render_tag(ts[0]) + ","@ + (tags_body(
                dl.drop_first(),
            ) + ","@ + spec_render_tag(ts.last())));
        }
    }
}

/// Dropping the first event shifts the front-read body.
proof fn lemma_from_drop(ts: Seq<TagView>, k: int)
    requires
        ts.len() >= 1,
        0 <= k,
    ensures
        list_from(ts, k + 1) == list_from(ts.drop_first(), k),
    decreases ts.len() - k,
{
    let df = ts.drop_first();
    if k + 1 < ts.len() {
        assert(ts[k + 1] == df[k]);
        if k + 1 < ts.len() - 1 {
            lemma_from_drop(ts, k + 1);
        }
    }
}

/// The rendering of a list is the opening bracket and the front-read body.
#[verifier::rlimit(100)]
#[verifier::spinoff_prover]
proof fn lemma_render_tags_from(ts: Seq<TagView>)
    ensures
        spec_render_tags(ts) == "["@ + list_from(ts, 0),
    decreases ts.len(),
{
    reveal_strlit("[");
    if ts.len() == 0 {
        assert(spec_render_tags(ts) =~= "["@ + list_from(ts, 0));
    } else if ts.len() == 1 {
        lemma_body_front(ts);
        assert("["@ + tags_body(ts) + "]"@ =~= "["@ + (spec_render_tag(ts[0]) + "]"@));
    } else {
        let df = ts.drop_first();
        lemma_render_tags_from(df);
        lemma_body_front(ts);
        lemma_from_drop(ts, 0);
        // "[" + ((r0 + ",") + body(df)) + "]" == "[" + (r0 + ("," + (body(df) + "]")))
        assert("["@ + tags_body(ts) + "]"@ =~= "["@ + (spec_render_tag(ts[0]) + (","@ + (tags_body(
            df,
        ) + "]"@))));
        assert("["@ + tags_body(df) + "]"@ =~= "["@ + (tags_body(df) + "]"@));
        assert(tags_body(df) + "]"@ == list_from(df, 0)) by {
            assert(("["@ + (tags_body(df) + "]"@)).skip(1) =~= tags_body(df) + "]"@);
            assert(("["@ + list_from(df, 0)).skip(1) =~= list_from(df, 0));
        }
    }
}

/// Renders an event list as canonical JSON.
#[verifier::rlimit(100)]
#[verifier::spinoff_prover]
pub fn render_user_tags(tags: &Vec<UserTag>) -> (r: String)
    requires
        all_wf(seq_views(tags@)),
    ensures
        r@ == spec_render_tags(seq_views(tags@)),
{
    let mut out: Vec<char> = Vec::new();
    push_chars(&mut out, "[");
    proof {
        assert(Seq::<char>::empty() + "["@ =~= "["@);
        assert(seq_views(tags@).subrange(0, 0) =~= Seq::<TagView>::empty());
    }
    let n = tags.len();
    let mut i: usize = 0;
    while i < n
        invariant
            0 <= i <= n,
            n == tags@.len(),
            all_wf(seq_views(tags@)),
            out@ == "["@ + tags_body(seq_views(tags@).subrange(0, i as int)),
        decreases n - i,
    {
        if i > 0 {
            push_chars(&mut out, ",");
        }
        proof {
            assert(seq_views(tags@)[i as int] == tags@[i as int]@);
        }
        push_tag(&mut out, &tags[i]);
        proof {
            let l = seq_views(tags@);
            assert(l.subrange(0, i + 1).drop_last() =~= l.subrange(0, i as int));
            assert(l.subrange(0, i + 1).last() == l[i as int]);
            if i == 0 {
                assert(tags_body(l.subrange(0, 1)) == spec_render_tag(l[0]));
                assert(out@ == "["@ + Seq::<char>::empty() + spec_render_tag(l[0]));
                assert("["@ + Seq::<char>::empty() + spec_render_tag(l[0]) =~= "["@ + tags_body(
                    l.subrange(0, 1),
                ));
            } else {
                assert(tags_body(l.subrange(0, i + 1)) == tags_body(l.subrange(0, i as int))
                    + ","@ + spec_render_tag(l[i as int]));
                assert(out@ =~= "["@ + tags_body(l.subrange(0, i + 1)));
            }
        }
        i += 1;
    }
    push_chars(&mut out, "]");
    proof {
        assert(seq_views(tags@).subrange(0, n as int) =~= seq_views(tags@));
    }
    string_from_chars(&out)
}

/// Appends one parsed event to the growing list, keeping the shape of what
/// was read so far and what must still follow.
#[verifier::rlimit(100)]
#[verifier::spinoff_prover]
fn push_parsed(v: &Vec<char>, cur: usize, next: usize, t: UserTag, out: &mut Vec<UserTag>)
    requires
        cur <= next <= v@.len(),
        all_wf(seq_views(old(out)@)),
        t@.wf(),
        v@.subrange(cur as int, next as int) == spec_render_tag(t@),
        (old(out)@.len() == 0 && v@.subrange(0, cur as int) == "["@) || (old(out)@.len() > 0
            && v@.subrange(0, cur as int) == "["@ + tags_body(seq_views(old(out)@)) + ","@),
        forall|l: Seq<TagView>|
            all_wf(l) && v@ == #[trigger] spec_render_tags(l) ==> {
                &&& l.len() > old(out)@.len()
                &&& l.subrange(0, old(out)@.len() as int) == seq_views(old(out)@)
                &&& stands_at(v@, cur as int, list_from(l, old(out)@.len() as int))
                &&& cur + list_from(l, old(out)@.len() as int).len() == v@.len()
            },
        forall|tv: TagView|
            tv.wf() && #[trigger] render_begins_at(v@, cur as int, tv) ==> tv == t@ && cur
                + spec_render_tag(tv).len() == next,
    ensures
        final(out)@ == old(out)@.push(t),
        all_wf(seq_views(final(out)@)),
        v@.subrange(0, next as int) == "["@ + tags_body(seq_views(final(out)@)),
        forall|l: Seq<TagView>|
            all_wf(l) && v@ == #[trigger] spec_render_tags(l) ==> {
                &&& l.len() >= final(out)@.len()
                &&& l.subrange(0, final(out)@.len() as int) == seq_views(final(out)@)
                &&& (l.len() == final(out)@.len() ==> stands_at(v@, next as int, "]"@) && next
                    + "]"@.len() == v@.len())
                &&& (l.len() > final(out)@.len() ==> stands_at(
                    v@,
                    next as int,
                    ","@ + list_from(l, final(out)@.len() as int),
                ) && next + (","@ + list_from(l, final(out)@.len() as int)).len() == v@.len())
            },
{
    let ghost old_views = seq_views(out@);
    let ghost old_cur = cur as int;
    out.push(t);
    proof {
        let lv = seq_views(out@);
        assert(lv.drop_last() =~= old_views);
        assert(lv.last() == t@);
        assert(lv =~= old_views.push(t@));
        assert forall|i: int| 0 <= i < lv.len() implies (#[trigger] lv[i]).wf() by {
            if i < lv.len() - 1 {
                assert(lv[i] == old_views[i]);
            } else {
                assert(lv[i] == t@);
            }
        }
        lemma_subrange_concat(v@, 0, old_cur, next as int);
        if old_views.len() == 0 {
            assert(tags_body(lv) == spec_render_tag(t@));
            assert(v@.subrange(0, next as int) == "["@ + spec_render_tag(t@));
        } else {
            assert(tags_body(lv) == tags_body(old_views) + ","@ + spec_render_tag(t@));
            assert(v@.subrange(0, next as int) == "["@ + tags_body(old_views) + ","@
                + spec_render_tag(t@));
            assert(v@.subrange(0, next as int) =~= "["@ + tags_body(lv));
        }
        lemma_loop_push(v@, old_cur, next as int, t@, old_views, lv);
    }
}

/// Reads an event list: succeeds exactly on the canonical rendering of a
/// well-formed event list, and returns those events.
#[verifier::rlimit(100)]
#[verifier::spinoff_prover]
pub fn parse_user_tags(s: &str) -> (r: Option<Vec<UserTag>>)
    ensures
        match r {
            Some(ts) => {
                &&& all_wf(seq_views(ts@))
                &&& s@ == spec_render_tags(seq_views(ts@))
                &&& forall|l: Seq<TagView>|
                    all_wf(l) && s@ == #[trigger] spec_render_tags(l) ==> l == seq_views(ts@)
            },
            None => forall|l: Seq<TagView>|
                all_wf(l) ==> s@ != #[trigger] spec_render_tags(l),
        },
{
    proof {
        reveal_strlit("[");
        reveal_strlit("]");
        reveal_strlit(",");
        reveal_strlit("{\"time\":\"");
    }
    let v = chars_of(s);
    let n = v.len();
    let mut out: Vec<UserTag> = Vec::new();
    let mut cur = match match_lit(&v, 0, "[") {
        Some(j) => j,
        None => {
            proof {
                assert forall|l: Seq<TagView>|
                    all_wf(l) implies s@ != #[trigger] spec_render_tags(l) by {
                    if s@ == spec_render_tags(l) {
                        lemma_render_tags_from(l);
                        assert(v@.subrange(0, s@.len() as int) =~= v@);
                        lemma_stands_split(v@, 0, "["@, list_from(l, 0));
                    }
                }
            }
            return None;
        },
    };
    proof {
        assert forall|l: Seq<TagView>|
            all_wf(l) && s@ == #[trigger] spec_render_tags(l) implies stands_at(
            v@,
            cur as int,
            list_from(l, 0),
        ) && cur + list_from(l, 0).len() == v@.len() by {
            lemma_render_tags_from(l);
            assert(v@.subrange(0, s@.len() as int) =~= v@);
            lemma_stands_split(v@, 0, "["@, list_from(l, 0));
        }
    }
    if let Some(end) = match_lit(&v, cur, "]") {
        if end == n {
            proof {
                lemma_subrange_concat(v@, 0, cur as int, end as int);
                assert(seq_views(out@) =~= Seq::<TagView>::empty());
                assert(v@.subrange(0, end as int) =~= v@);
                assert(v@ =~= "["@ + tags_body(seq_views(out@)) + "]"@);
                assert forall|l: Seq<TagView>|
                    all_wf(l) && s@ == #[trigger] spec_render_tags(l) implies l == seq_views(
                    out@,
                ) by {
                    if l.len() > 0 {
                        lemma_render_tag_tails(l[0]);
                        lemma_stands_split(v@, cur as int, spec_render_tag(l[0]), list_from(l, 0)
                            .skip(spec_render_tag(l[0]).len() as int));
                        assert(list_from(l, 0)[0] == spec_render_tag(l[0])[0]) by {
                            if l.len() == 1 {
                                assert(list_from(l, 0) == spec_render_tag(l[0]) + "]"@);
                            } else {
                                assert(list_from(l, 0) == spec_render_tag(l[0]) + (","@
                                    + list_from(l, 1)));
                            }
                        }
                        assert(spec_render_tag(l[0])[0] == '{');
                        assert(v@[cur as int] == list_from(l, 0)[0]) by {
                            assert(v@.subrange(cur as int, cur + list_from(l, 0).len())[0]
                                == v@[cur as int]);
                        }
                        assert(v@.subrange(cur as int, cur + 1)[0] == v@[cur as int]);
                        assert(false);
                    }
                    assert(l =~= seq_views(out@));
                }
            }
            return Some(out);
        }
        proof {
            assert forall|l: Seq<TagView>|
                all_wf(l) implies s@ != #[trigger] spec_render_tags(l) by {
                if s@ == spec_render_tags(l) {
                    if l.len() == 0 {
                        assert(list_from(l, 0) == "]"@);
                        assert(cur + 1 == v@.len());
                    } else {
                        lemma_render_tag_tails(l[0]);
                        assert(list_from(l, 0)[0] == spec_render_tag(l[0])[0]) by {
                            if l.len() == 1 {
                                assert(list_from(l, 0) == spec_render_tag(l[0]) + "]"@);
                            } else {
                                assert(list_from(l, 0) == spec_render_tag(l[0]) + (","@
                                    + list_from(l, 1)));
                            }
                        }
                        assert(spec_render_tag(l[0])[0] == '{');
                        assert(v@[cur as int] == list_from(l, 0)[0]) by {
                            assert(v@.subrange(cur as int, cur + list_from(l, 0).len())[0]
                                == v@[cur as int]);
                        }
                        assert(v@.subrange(cur as int, cur + 1)[0] == v@[cur as int]);
                    }
                }
            }
        }
        return None;
    }
    proof {
        assert forall|l: Seq<TagView>|
            all_wf(l) && s@ == #[trigger] spec_render_tags(l) implies l.len() > 0 by {
            if l.len() == 0 {
                assert(list_from(l, 0) == "]"@);
                assert(v@.subrange(cur as int, cur + 1) =~= "]"@);
            }
        }
    }
    loop
        invariant
            cur <= v@.len(),
            n == v@.len(),
            v@ == s@,
            all_wf(seq_views(out@)),
            (out@.len() == 0 && v@.subrange(0, cur as int) == "["@) || (out@.len() > 0
                && v@.subrange(0, cur as int) == "["@ + tags_body(seq_views(out@)) + ","@),
            forall|l: Seq<TagView>|
                all_wf(l) && s@ == #[trigger] spec_render_tags(l) ==> {
                    &&& l.len() > out@.len()
                    &&& l.subrange(0, out@.len() as int) == seq_views(out@)
                    &&& stands_at(v@, cur as int, list_from(l, out@.len() as int))
                    &&& cur + list_from(l, out@.len() as int).len() == v@.len()
                },
        decreases v@.len() - cur,
    {
        let ghost old_cur = cur as int;
        let ghost k = out@.len() as int;
        let (t, next) = match parse_tag_region(&v, cur) {
            Some(p) => p,
            None => {
                proof {
                    assert forall|l: Seq<TagView>|
                        all_wf(l) implies s@ != #[trigger] spec_render_tags(l) by {
                        if s@ == spec_render_tags(l) {
                            lemma_list_head(v@, old_cur, l, k);
                        }
                    }
                }
                return None;
            },
        };
        if next == cur {
            // An event rendering is never empty; no progress means failure.
            proof {
                assert forall|l: Seq<TagView>|
                    all_wf(l) implies s@ != #[trigger] spec_render_tags(l) by {
                    if s@ == spec_render_tags(l) {
                        lemma_list_head(v@, old_cur, l, k);
                        assert(spec_render_tag(l[k]).len() > 0) by {
                            lemma_render_tag_tails(l[k]);
                        }
                    }
                }
            }
            return None;
        }
        push_parsed(&v, cur, next, t, &mut out);
        cur = next;
        if let Some(j) = match_lit(&v, cur, "]") {
            proof {
                lemma_loop_close(v@, cur as int, seq_views(out@));
            }
            if j == n {
                proof {
                    lemma_subrange_concat(v@, 0, cur as int, j as int);
                    assert(v@.subrange(0, j as int) =~= v@);
                }
                return Some(out);
            }
            return None;
        }
        let j = match match_lit(&v, cur, ",") {
            Some(j) => j,
            None => {
                proof {
                    lemma_loop_fail(v@, cur as int, seq_views(out@));
                }
                return None;
            },
        };
        proof {
            lemma_subrange_concat(v@, 0, cur as int, j as int);
            lemma_loop_comma(v@, cur as int, j as int, seq_views(out@));
        }
        cur = j;
    }
}

/// The first character of a piece standing at a position.
proof fn lemma_first_char(s: Seq<char>, cur: int, t: Seq<char>)
    requires
        stands_at(s, cur, t),
        t.len() >= 1,
    ensures
        cur < s.len(),
        s[cur] == t[0],
{
    assert(s.subrange(cur, cur + t.len())[0] == s[cur]);
}

/// After one event of the body, either the closing bracket or a comma and
/// the rest stand at the cursor.
proof fn lemma_list_step(s: Seq<char>, cur: int, next: int, l: Seq<TagView>, k: int)
    requires
        0 <= k < l.len(),
        stands_at(s, cur, list_from(l, k)),
        cur + list_from(l, k).len() == s.len(),
        next == cur + spec_render_tag(l[k]).len(),
    ensures
        l.len() == k + 1 ==> stands_at(s, next, "]"@) && next + "]"@.len() == s.len(),
        l.len() > k + 1 ==> stands_at(s, next, ","@ + list_from(l, k + 1)) && next + (","@
            + list_from(l, k + 1)).len() == s.len(),
{
    if l.len() == k + 1 {
        assert(list_from(l, k) == spec_render_tag(l[k]) + "]"@);
        lemma_stands_split(s, cur, spec_render_tag(l[k]), "]"@);
    } else {
        assert(list_from(l, k) == spec_render_tag(l[k]) + (","@ + list_from(l, k + 1)));
        lemma_stands_split(s, cur, spec_render_tag(l[k]), ","@ + list_from(l, k + 1));
    }
}

/// One parsed event extends the prefix and leaves the bracket or a comma
/// and the remaining body at the cursor.
proof fn lemma_loop_push(
    v: Seq<char>,
    cur: int,
    next: int,
    t: TagView,
    old_views: Seq<TagView>,
    new_views: Seq<TagView>,
)
    requires
        forall|l: Seq<TagView>|
            all_wf(l) && v == #[trigger] spec_render_tags(l) ==> {
                &&& l.len() > old_views.len()
                &&& l.subrange(0, old_views.len() as int) == old_views
                &&& stands_at(v, cur, list_from(l, old_views.len() as int))
                &&& cur + list_from(l, old_views.len() as int).len() == v.len()
            },
        forall|tv: TagView|
            tv.wf() && #[trigger] render_begins_at(v, cur, tv) ==> tv == t && cur
                + spec_render_tag(tv).len() == next,
        new_views == old_views.push(t),
    ensures
        forall|l: Seq<TagView>|
            all_wf(l) && v == #[trigger] spec_render_tags(l) ==> {
                &&& l.len() >= new_views.len()
                &&& l.subrange(0, new_views.len() as int) == new_views
                &&& (l.len() == new_views.len() ==> stands_at(v, next, "]"@) && next + "]"@.len()
                    == v.len())
                &&& (l.len() > new_views.len() ==> stands_at(
                    v,
                    next,
                    ","@ + list_from(l, new_views.len() as int),
                ) && next + (","@ + list_from(l, new_views.len() as int)).len() == v.len())
            },
{
    let k = old_views.len() as int;
    assert forall|l: Seq<TagView>|
        all_wf(l) && v == #[trigger] spec_render_tags(l) implies {
        &&& l.len() >= new_views.len()
        &&& l.subrange(0, new_views.len() as int) == new_views
        &&& (l.len() == new_views.len() ==> stands_at(v, next, "]"@) && next + "]"@.len()
            == v.len())
        &&& (l.len() > new_views.len() ==> stands_at(
            v,
            next,
            ","@ + list_from(l, new_views.len() as int),
        ) && next + (","@ + list_from(l, new_views.len() as int)).len() == v.len())
    } by {
        lemma_list_head(v, cur, l, k);
        assert(l[k] == t);
        assert(l.subrange(0, k + 1) =~= new_views);
        lemma_list_step(v, cur, next, l, k);
    }
}

/// The closing bracket after an event ends the list: the parsed events are
/// the whole list, and the input ends here.
proof fn lemma_loop_close(v: Seq<char>, cur: int, views: Seq<TagView>)
    requires
        forall|l: Seq<TagView>|
            all_wf(l) && v == #[trigger] spec_render_tags(l) ==> {
                &&& l.len() >= views.len()
                &&& l.subrange(0, views.len() as int) == views
                &&& (l.len() == views.len() ==> stands_at(v, cur, "]"@) && cur + "]"@.len()
                    == v.len())
                &&& (l.len() > views.len() ==> stands_at(
                    v,
                    cur,
                    ","@ + list_from(l, views.len() as int),
                ))
            },
        0 <= cur,
        cur + "]"@.len() <= v.len(),
        v.subrange(cur, cur + "]"@.len()) == "]"@,
    ensures
        forall|l: Seq<TagView>|
            all_wf(l) && v == #[trigger] spec_render_tags(l) ==> l == views && cur + "]"@.len()
                == v.len(),
{
    reveal_strlit("]");
    reveal_strlit(",");
    assert forall|l: Seq<TagView>|
        all_wf(l) && v == #[trigger] spec_render_tags(l) implies l == views && cur + "]"@.len()
        == v.len() by {
        if l.len() > views.len() {
            lemma_first_char(v, cur, ","@ + list_from(l, views.len() as int));
            lemma_first_char(v, cur, "]"@);
            assert(stands_at(v, cur, "]"@));
            assert(false);
        }
        assert(l =~= views);
    }
}

/// The comma after an event continues the list with at least one more event.
proof fn lemma_loop_comma(v: Seq<char>, cur: int, j: int, views: Seq<TagView>)
    requires
        forall|l: Seq<TagView>|
            all_wf(l) && v == #[trigger] spec_render_tags(l) ==> {
                &&& l.len() >= views.len()
                &&& l.subrange(0, views.len() as int) == views
                &&& (l.len() == views.len() ==> stands_at(v, cur, "]"@))
                &&& (l.len() > views.len() ==> stands_at(
                    v,
                    cur,
                    ","@ + list_from(l, views.len() as int),
                ) && cur + (","@ + list_from(l, views.len() as int)).len() == v.len())
            },
        0 <= cur,
        !(cur + "]"@.len() <= v.len() && v.subrange(cur, cur + "]"@.len()) == "]"@),
        j == cur + ","@.len(),
    ensures
        forall|l: Seq<TagView>|
            all_wf(l) && v == #[trigger] spec_render_tags(l) ==> {
                &&& l.len() > views.len()
                &&& stands_at(v, j, list_from(l, views.len() as int))
                &&& j + list_from(l, views.len() as int).len() == v.len()
            },
{
    reveal_strlit("]");
    reveal_strlit(",");
    assert forall|l: Seq<TagView>|
        all_wf(l) && v == #[trigger] spec_render_tags(l) implies {
        &&& l.len() > views.len()
        &&& stands_at(v, j, list_from(l, views.len() as int))
        &&& j + list_from(l, views.len() as int).len() == v.len()
    } by {
        if l.len() == views.len() {
            assert(stands_at(v, cur, "]"@));
            assert(false);
        }
        lemma_stands_split(v, cur, ","@, list_from(l, views.len() as int));
    }
}

/// Neither a bracket nor a comma after an event: the input renders no list.
proof fn lemma_loop_fail(v: Seq<char>, cur: int, views: Seq<TagView>)
    requires
        forall|l: Seq<TagView>|
            all_wf(l) && v == #[trigger] spec_render_tags(l) ==> {
                &&& l.len() >= views.len()
                &&& (l.len() == views.len() ==> stands_at(v, cur, "]"@))
                &&& (l.len() > views.len() ==> stands_at(
                    v,
                    cur,
                    ","@ + list_from(l, views.len() as int),
                ))
            },
        0 <= cur,
        !(cur + "]"@.len() <= v.len() && v.subrange(cur, cur + "]"@.len()) == "]"@),
        !(cur + ","@.len() <= v.len() && v.subrange(cur, cur + ","@.len()) == ","@),
    ensures
        forall|l: Seq<TagView>| all_wf(l) ==> v != #[trigger] spec_render_tags(l),
{
    reveal_strlit("]");
    reveal_strlit(",");
    assert forall|l: Seq<TagView>|
        all_wf(l) implies v != #[trigger] spec_render_tags(l) by {
        if v == spec_render_tags(l) {
            if l.len() == views.len() {
                assert(stands_at(v, cur, "]"@));
            } else {
                lemma_stands_split(v, cur, ","@, list_from(l, views.len() as int));
            }
        }
    }
}

/// At the head of the unread list body stands the next event's rendering.
proof fn lemma_list_head(s: Seq<char>, cur: int, l: Seq<TagView>, k: int)
    requires
        all_wf(l),
        0 <= k < l.len(),
        stands_at(s, cur, list_from(l, k)),
    ensures
        render_begins_at(s, cur, l[k]),
{
    if k == l.len() - 1 {
        assert(list_from(l, k) == spec_render_tag(l[k]) + "]"@);
        lemma_stands_split(s, cur, spec_render_tag(l[k]), "]"@);
    } else {
        assert(list_from(l, k) == spec_render_tag(l[k]) + (","@ + list_from(l, k + 1)));
        lemma_stands_split(s, cur, spec_render_tag(l[k]), ","@ + list_from(l, k + 1));
    }
}

} // verus!
