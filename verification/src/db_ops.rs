//! Record-store operation requests, rendered as JSON for a store reached
//! over its REST bridge: list append and trim for profiles, counter adds for
//! aggregates, and index creation.

use vstd::prelude::*;

use crate::codec::{push_chars, spec_render_tag};
use crate::text::{dec_str, dec_str_int, string_from_chars};
use crate::user_tag::{plain, UserTag};

verus! {

#[derive(Debug, Clone, Copy, PartialEq, Eq, Structural)]
pub enum ListOrder {
    Ordered,
    Unordered,
}

pub open spec fn list_order_name(o: ListOrder) -> Seq<char> {
    match o {
        ListOrder::Ordered => "ORDERED"@,
        ListOrder::Unordered => "UNORDERED"@,
    }
}

impl ListOrder {
    pub fn name(self) -> (r: &'static str)
        ensures
            r@ == list_order_name(self),
    {
        match self {
            ListOrder::Ordered => "ORDERED",
            ListOrder::Unordered => "UNORDERED",
        }
    }
}

/// One operation of an operate request.
#[derive(Debug)]
pub enum DbOp {
    ListAppend { bin_name: String, value: (i64, UserTag) },
    ListTrim { bin_name: String, index: usize, count: usize },
    ListSetOrder { bin_name: String, list_order: ListOrder },
    Add { bin_name: String, incr: i64 },
}

impl DbOp {
    /// Bin names come from this crate; values are well-formed events.
    pub open spec fn wf(self) -> bool {
        match self {
            DbOp::ListAppend { bin_name, value } => plain(bin_name@) && value.1@.wf(),
            DbOp::ListTrim { bin_name, .. } => plain(bin_name@),
            DbOp::ListSetOrder { bin_name, .. } => plain(bin_name@),
            DbOp::Add { bin_name, .. } => plain(bin_name@),
        }
    }
}

/// The JSON rendering of one operation.
pub open spec fn spec_render_op(op: DbOp) -> Seq<char> {
    match op {
        DbOp::ListAppend { bin_name, value } => "{\"type\":\"LIST_APPEND\",\"binName\":\""@
            + bin_name@ + "\",\"value\":["@ + dec_str_int(value.0 as int) + ","@ + spec_render_tag(
            value.1@,
        ) + "]}"@,
        DbOp::ListTrim { bin_name, index, count } => "{\"type\":\"LIST_TRIM\",\"binName\":\""@
            + bin_name@ + "\",\"index\":"@ + dec_str(index as nat) + ",\"count\":"@ + dec_str(
            count as nat,
        ) + "}"@,
        DbOp::ListSetOrder { bin_name, list_order } => "{\"type\":\"LIST_SET_ORDER\",\"binName\":\""@
            + bin_name@ + "\",\"listOrder\":\""@ + list_order_name(list_order) + "\"}"@,
        DbOp::Add { bin_name, incr } => "{\"type\":\"ADD\",\"binName\":\""@ + bin_name@
            + "\",\"incr\":"@ + dec_str_int(incr as int) + "}"@,
    }
}

fn push_op(v: &mut Vec<char>, op: &DbOp)
    requires
        op.wf(),
    ensures
        final(v)@ == old(v)@ + spec_render_op(*op),
{
    match op {
        DbOp::ListAppend { bin_name, value } => {
            push_chars(v, "{\"type\":\"LIST_APPEND\",\"binName\":\"");
            push_chars(v, bin_name.as_str());
            push_chars(v, "\",\"value\":[");
            crate::text::push_i64(v, value.0);
            push_chars(v, ",");
            let rendered = crate::codec::render_user_tag(&value.1);
            push_chars(v, rendered.as_str());
            push_chars(v, "]}");
            assert(final(v)@ =~= old(v)@ + spec_render_op(*op));
        },
        DbOp::ListTrim { bin_name, index, count } => {
            push_chars(v, "{\"type\":\"LIST_TRIM\",\"binName\":\"");
            push_chars(v, bin_name.as_str());
            push_chars(v, "\",\"index\":");
            crate::text::push_u64(v, *index as u64);
            push_chars(v, ",\"count\":");
            crate::text::push_u64(v, *count as u64);
            push_chars(v, "}");
            assert(final(v)@ =~= old(v)@ + spec_render_op(*op));
        },
        DbOp::ListSetOrder { bin_name, list_order } => {
            push_chars(v, "{\"type\":\"LIST_SET_ORDER\",\"binName\":\"");
            push_chars(v, bin_name.as_str());
            push_chars(v, "\",\"listOrder\":\"");
            push_chars(v, list_order.name());
            push_chars(v, "\"}");
            assert(final(v)@ =~= old(v)@ + spec_render_op(*op));
        },
        DbOp::Add { bin_name, incr } => {
            push_chars(v, "{\"type\":\"ADD\",\"binName\":\"");
            push_chars(v, bin_name.as_str());
            push_chars(v, "\",\"incr\":");
            crate::text::push_i64(v, *incr);
            push_chars(v, "}");
            assert(final(v)@ =~= old(v)@ + spec_render_op(*op));
        },
    }
}

/// A batch of operations on one record.
#[derive(Debug)]
pub struct OperateDbRequest {
    pub ops_list: Vec<DbOp>,
}

pub open spec fn ops_wf(ops: Seq<DbOp>) -> bool {
    forall|i: int| 0 <= i < ops.len() ==> (#[trigger] ops[i]).wf()
}

/// The rendered operations, comma-joined.
pub open spec fn ops_body(ops: Seq<DbOp>) -> Seq<char>
    decreases ops.len(),
{
    if ops.len() == 0 {
        Seq::empty()
    } else if ops.len() == 1 {
        spec_render_op(ops[0])
    } else {
        ops_body(ops.drop_last()) + ","@ + spec_render_op(ops.last())
    }
}

/// The JSON rendering of an operate request.
pub open spec fn spec_render_request(ops: Seq<DbOp>) -> Seq<char> {
    "{\"opsList\":["@ + ops_body(ops) + "]}"@
}

impl OperateDbRequest {
    pub open spec fn wf(self) -> bool {
        ops_wf(self.ops_list@)
    }

    /// Appends the event to the profile's list, keyed for descending time,
    /// and trims the list to the profile bound.
    pub fn update_user_profile(tag: UserTag) -> (r: OperateDbRequest)
        requires
            tag@.wf(),
            tag@.time.spec_millis() > i64::MIN,
        ensures
            r.wf(),
            r.ops_list@.len() == 2,
            r.ops_list@[0] matches DbOp::ListAppend { bin_name, value } && bin_name@
                == "user_tags"@ && value.0 == -tag@.time.spec_millis() && value.1@ == tag@,
            r.ops_list@[1] matches DbOp::ListTrim { bin_name, index, count } && bin_name@
                == "user_tags"@ && index == 0 && count == 200,
    {
        let key = -tag.time.timestamp_millis();
        let append_op = DbOp::ListAppend { bin_name: String::from_str("user_tags"), value: (key, tag) };
        let trim_op = DbOp::ListTrim { bin_name: String::from_str("user_tags"), index: 0, count: 200 };
        let mut ops: Vec<DbOp> = Vec::new();
        ops.push(append_op);
        ops.push(trim_op);
        proof {
            assert(plain("user_tags"@)) by {
                reveal_strlit("user_tags");
                assert(forall|i: int|
                    0 <= i < "user_tags"@.len() ==> crate::user_tag::plain_char(
                        #[trigger] "user_tags"@[i],
                    ));
            }
        }
        OperateDbRequest { ops_list: ops }
    }

    /// Marks the profile's list as server-side ordered.
    pub fn list_set_order() -> (r: OperateDbRequest)
        ensures
            r.wf(),
            r.ops_list@.len() == 1,
            r.ops_list@[0] matches DbOp::ListSetOrder { bin_name, list_order } && bin_name@
                == "user_tags"@ && list_order == ListOrder::Ordered,
    {
        let op = DbOp::ListSetOrder {
            bin_name: String::from_str("user_tags"),
            list_order: ListOrder::Ordered,
        };
        let mut ops: Vec<DbOp> = Vec::new();
        ops.push(op);
        proof {
            assert(plain("user_tags"@)) by {
                reveal_strlit("user_tags");
                assert(forall|i: int|
                    0 <= i < "user_tags"@.len() ==> crate::user_tag::plain_char(
                        #[trigger] "user_tags"@[i],
                    ));
            }
        }
        OperateDbRequest { ops_list: ops }
    }

    /// Counts the event into its aggregate record: one more event, its price
    /// added to the sum.
    pub fn update_aggregate_record(tag: &UserTag) -> (r: OperateDbRequest)
        requires
            tag@.wf(),
        ensures
            r.wf(),
            r.ops_list@.len() == 2,
            r.ops_list@[0] matches DbOp::Add { bin_name, incr } && bin_name@ == "count"@ && incr
                == 1,
            r.ops_list@[1] matches DbOp::Add { bin_name, incr } && bin_name@ == "sum_price"@
                && incr == tag@.price,
    {
        let count_add = DbOp::Add { bin_name: String::from_str("count"), incr: 1 };
        let sum_price_add = DbOp::Add {
            bin_name: String::from_str("sum_price"),
            incr: tag.product_info.price as i64,
        };
        let mut ops: Vec<DbOp> = Vec::new();
        ops.push(count_add);
        ops.push(sum_price_add);
        proof {
            assert(plain("count"@)) by {
                reveal_strlit("count");
                assert(forall|i: int|
                    0 <= i < "count"@.len() ==> crate::user_tag::plain_char(
                        #[trigger] "count"@[i],
                    ));
            }
            assert(plain("sum_price"@)) by {
                reveal_strlit("sum_price");
                assert(forall|i: int|
                    0 <= i < "sum_price"@.len() ==> crate::user_tag::plain_char(
                        #[trigger] "sum_price"@[i],
                    ));
            }
        }
        OperateDbRequest { ops_list: ops }
    }

    /// Renders the request as JSON.
    pub fn render(&self) -> (r: String)
        requires
            self.wf(),
        ensures
            r@ == spec_render_request(self.ops_list@),
    {
        let mut v: Vec<char> = Vec::new();
        push_chars(&mut v, "{\"opsList\":[");
        proof {
            assert(Seq::<char>::empty() + "{\"opsList\":["@ =~= "{\"opsList\":["@);
            assert(self.ops_list@.subrange(0, 0) =~= Seq::<DbOp>::empty());
        }
        let n = self.ops_list.len();
        let mut i: usize = 0;
        while i < n
            invariant
                0 <= i <= n,
                n == self.ops_list@.len(),
                ops_wf(self.ops_list@),
                v@ == "{\"opsList\":["@ + ops_body(self.ops_list@.subrange(0, i as int)),
            decreases n - i,
        {
            if i > 0 {
                push_chars(&mut v, ",");
            }
            push_op(&mut v, &self.ops_list[i]);
            proof {
                let l = self.ops_list@;
                assert(l.subrange(0, i + 1).drop_last() =~= l.subrange(0, i as int));
                assert(l.subrange(0, i + 1).last() == l[i as int]);
                if i == 0 {
                    assert(ops_body(l.subrange(0, 1)) == spec_render_op(l[0]));
                    assert(v@ =~= "{\"opsList\":["@ + ops_body(l.subrange(0, 1)));
                } else {
                    assert(ops_body(l.subrange(0, i + 1)) == ops_body(l.subrange(0, i as int))
                        + ","@ + spec_render_op(l[i as int]));
                    assert(v@ =~= "{\"opsList\":["@ + ops_body(l.subrange(0, i + 1)));
                }
            }
            i += 1;
        }
        push_chars(&mut v, "]}");
        proof {
            assert(self.ops_list@.subrange(0, n as int) =~= self.ops_list@);
        }
        string_from_chars(&v)
    }
}

#[derive(Debug, Clone, Copy, PartialEq, Eq, Structural)]
pub enum IndexType {
    Numeric,
    String,
    Geo2DSphere,
}

pub open spec fn index_type_name(t: IndexType) -> Seq<char> {
    match t {
        IndexType::Numeric => "NUMERIC"@,
        IndexType::String => "STRING"@,
        IndexType::Geo2DSphere => "GEO2DSPHERE"@,
    }
}

impl IndexType {
    pub fn name(self) -> (r: &'static str)
        ensures
            r@ == index_type_name(self),
    {
        match self {
            IndexType::Numeric => "NUMERIC",
            IndexType::String => "STRING",
            IndexType::Geo2DSphere => "GEO2DSPHERE",
        }
    }
}

/// A secondary-index creation request.
#[derive(Debug, Clone)]
pub struct CreateIndexRequest {
    pub index_type: IndexType,
    pub name: String,
    pub namespace: String,
    pub set: String,
    pub bin: String,
}

/// The JSON rendering of an index creation request.
pub open spec fn spec_render_index_request(r: CreateIndexRequest) -> Seq<char> {
    "{\"type\":\""@ + index_type_name(r.index_type) + "\",\"name\":\""@ + r.name@
        + "\",\"namespace\":\""@ + r.namespace@ + "\",\"set\":\""@ + r.set@ + "\",\"bin\":\""@
        + r.bin@ + "\"}"@
}

impl CreateIndexRequest {
    pub open spec fn wf(self) -> bool {
        plain(self.name@) && plain(self.namespace@) && plain(self.set@) && plain(self.bin@)
    }

    /// Renders the request as JSON.
    pub fn render(&self) -> (r: String)
        requires
            self.wf(),
        ensures
            r@ == spec_render_index_request(*self),
    {
        let mut v: Vec<char> = Vec::new();
        push_chars(&mut v, "{\"type\":\"");
        push_chars(&mut v, self.index_type.name());
        push_chars(&mut v, "\",\"name\":\"");
        push_chars(&mut v, self.name.as_str());
        push_chars(&mut v, "\",\"namespace\":\"");
        push_chars(&mut v, self.namespace.as_str());
        push_chars(&mut v, "\",\"set\":\"");
        push_chars(&mut v, self.set.as_str());
        push_chars(&mut v, "\",\"bin\":\"");
        push_chars(&mut v, self.bin.as_str());
        push_chars(&mut v, "\"}");
        proof {
            assert(Seq::<char>::empty() + "{\"type\":\""@ =~= "{\"type\":\""@);
            assert(v@ =~= spec_render_index_request(*self));
        }
        string_from_chars(&v)
    }
}

} // verus!
