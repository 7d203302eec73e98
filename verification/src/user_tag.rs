//! User-tag events: a timestamped product interaction.

use vstd::prelude::*;

use crate::datetime::DateTime;

verus! {

#[derive(Clone, Copy, Debug, PartialEq, Eq, Structural)]
pub enum Device {
    Pc,
    Mobile,
    Tv,
}

#[derive(Clone, Copy, Debug, PartialEq, Eq, Structural)]
pub enum Action {
    View,
    Buy,
}

/// Wire name of a device, as the ingest format spells it.
pub open spec fn device_name(d: Device) -> Seq<char> {
    match d {
        Device::Pc => "PC"@,
        Device::Mobile => "MOBILE"@,
        Device::Tv => "TV"@,
    }
}

/// Wire name of an action, as queries and the ingest format spell it.
pub open spec fn action_name(a: Action) -> Seq<char> {
    match a {
        Action::View => "VIEW"@,
        Action::Buy => "BUY"@,
    }
}

/// Store-level name of an action: profile bin and aggregate set names.
pub open spec fn action_db_name_spec(a: Action) -> Seq<char> {
    match a {
        Action::View => "view"@,
        Action::Buy => "buy"@,
    }
}

impl Action {
    /// Name under which the store keys this action.
    pub fn db_name(self) -> (r: &'static str)
        ensures
            r@ == action_db_name_spec(self),
    {
        match self {
            Action::View => "view",
            Action::Buy => "buy",
        }
    }

    /// Name under which queries and replies spell this action.
    pub fn name(self) -> (r: &'static str)
        ensures
            r@ == action_name(self),
    {
        match self {
            Action::View => "VIEW",
            Action::Buy => "BUY",
        }
    }
}

impl Device {
    /// Name under which the ingest format spells this device.
    pub fn name(self) -> (r: &'static str)
        ensures
            r@ == device_name(self),
    {
        match self {
            Device::Pc => "PC",
            Device::Mobile => "MOBILE",
            Device::Tv => "TV",
        }
    }
}

#[derive(Debug, Clone, PartialEq, Eq)]
pub struct ProductInfo {
    pub product_id: i32,
    pub brand_id: String,
    pub category_id: String,
    pub price: i32,
}

#[derive(Debug, Clone, PartialEq, Eq)]
pub struct UserTag {
    pub time: DateTime,
    pub cookie: String,
    pub country: String,
    pub device: Device,
    pub action: Action,
    pub origin: String,
    pub product_info: ProductInfo,
}

/// Ghost image of an event: views of the strings, plain values for the rest.
pub ghost struct TagView {
    pub time: DateTime,
    pub cookie: Seq<char>,
    pub country: Seq<char>,
    pub device: Device,
    pub action: Action,
    pub origin: Seq<char>,
    pub product_id: i32,
    pub brand_id: Seq<char>,
    pub category_id: Seq<char>,
    pub price: i32,
}

/// A character the wire format carries without an escape.
pub open spec fn plain_char(c: char) -> bool {
    c != '"' && c != '\\' && c as u32 >= 32
}

/// A string the wire format carries verbatim between quotes.
pub open spec fn plain(s: Seq<char>) -> bool {
    forall|i: int| 0 <= i < s.len() ==> plain_char(#[trigger] s[i])
}

impl TagView {
    /// A well-formed event: a valid timestamp, a non-negative price, and
    /// strings free of characters that would need an escape.
    pub open spec fn wf(self) -> bool {
        &&& self.time.wf()
        &&& self.price >= 0
        &&& plain(self.cookie)
        &&& plain(self.country)
        &&& plain(self.origin)
        &&& plain(self.brand_id)
        &&& plain(self.category_id)
    }
}

impl UserTag {
    /// A copy with the same view.
    pub fn duplicate(&self) -> (r: UserTag)
        ensures
            r@ == self@,
    {
        UserTag {
            time: self.time,
            cookie: self.cookie.clone(),
            country: self.country.clone(),
            device: self.device,
            action: self.action,
            origin: self.origin.clone(),
            product_info: ProductInfo {
                product_id: self.product_info.product_id,
                brand_id: self.product_info.brand_id.clone(),
                category_id: self.product_info.category_id.clone(),
                price: self.product_info.price,
            },
        }
    }
}

impl View for UserTag {
    type V = TagView;

    open spec fn view(&self) -> TagView {
        TagView {
            time: self.time,
            cookie: self.cookie@,
            country: self.country@,
            device: self.device,
            action: self.action,
            origin: self.origin@,
            product_id: self.product_info.product_id,
            brand_id: self.product_info.brand_id@,
            category_id: self.product_info.category_id@,
            price: self.product_info.price,
        }
    }
}

} // verus!
