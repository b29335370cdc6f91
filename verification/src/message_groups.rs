//! The kinds of messages that counts are listed by.
use crate::dictionaries::opt_str;
use crate::text::{same, stands_at, starts_with};
use vstd::prelude::*;

verus! {

/// What a message is about.
#[derive(Debug, Clone, Copy, PartialEq, Eq, Structural)]
pub enum MessageBucket {
    SessionAdmin,
    OrderFlow,
    MarketData,
    BusinessOther,
}

impl MessageBucket {
    /// The place of the kind in a listing.
    pub open spec fn place(self) -> u8 {
        match self {
            MessageBucket::SessionAdmin => 0,
            MessageBucket::OrderFlow => 1,
            MessageBucket::MarketData => 2,
            MessageBucket::BusinessOther => 3,
        }
    }

    pub fn sort_key(self) -> (place: u8)
        ensures
            place == self.place(),
    {
        match self {
            MessageBucket::SessionAdmin => 0,
            MessageBucket::OrderFlow => 1,
            MessageBucket::MarketData => 2,
            MessageBucket::BusinessOther => 3,
        }
    }

    /// Whether the kind is about business rather than the session.
    pub fn is_business(self) -> (yes: bool)
        ensures
            yes == (self != MessageBucket::SessionAdmin),
    {
        match self {
            MessageBucket::SessionAdmin => false,
            _ => true,
        }
    }

    pub open spec fn title(self) -> Seq<char> {
        match self {
            MessageBucket::SessionAdmin => "Session/Admin"@,
            MessageBucket::OrderFlow => "Order Flow"@,
            MessageBucket::MarketData => "Market Data"@,
            MessageBucket::BusinessOther => "Other"@,
        }
    }

    pub fn heading(self) -> (text: &'static str)
        ensures
            text@ == self.title(),
    {
        match self {
            MessageBucket::SessionAdmin => "Session/Admin",
            MessageBucket::OrderFlow => "Order Flow",
            MessageBucket::MarketData => "Market Data",
            MessageBucket::BusinessOther => "Other",
        }
    }
}

impl Default for MessageBucket {
    fn default() -> (bucket: MessageBucket)
        ensures
            bucket == MessageBucket::BusinessOther,
    {
        MessageBucket::BusinessOther
    }
}

/// The message types of the session layer.
pub open spec fn is_session_type(msg_type: Seq<char>) -> bool {
    msg_type == "0"@ || msg_type == "1"@ || msg_type == "2"@ || msg_type == "3"@ || msg_type
        == "4"@ || msg_type == "5"@ || msg_type == "A"@
}

/// Orders, their changes, and the reports on them.
pub open spec fn is_order_type(msg_type: Seq<char>) -> bool {
    msg_type == "D"@ || msg_type == "E"@ || msg_type == "F"@ || msg_type == "G"@ || msg_type
        == "H"@ || msg_type == "8"@ || msg_type == "9"@ || msg_type == "q"@ || msg_type == "r"@
        || msg_type == "s"@ || msg_type == "t"@ || msg_type == "u"@ || msg_type == "AB"@
        || msg_type == "AC"@
}

pub open spec fn is_market_data_type(msg_type: Seq<char>) -> bool {
    msg_type == "V"@ || msg_type == "W"@ || msg_type == "X"@ || msg_type == "Y"@
}

pub open spec fn is_market_data_label(label: Option<Seq<char>>) -> bool {
    label matches Some(text) && stands_at(text, 0, "MARKET_DATA"@)
}

/// The kind of a message, from its type and, where they are known, its name and category.
pub open spec fn bucket_of(
    msg_type: Seq<char>,
    label: Option<Seq<char>>,
    category: Option<Seq<char>>,
) -> MessageBucket {
    if category == Some("admin"@) || (category is None && is_session_type(msg_type)) {
        MessageBucket::SessionAdmin
    } else if is_order_type(msg_type) {
        MessageBucket::OrderFlow
    } else if is_market_data_type(msg_type) || is_market_data_label(label) {
        MessageBucket::MarketData
    } else {
        MessageBucket::BusinessOther
    }
}

fn labelled_market_data(label: Option<&str>) -> (yes: bool)
    ensures
        yes == is_market_data_label(opt_str(label)),
{
    match label {
        Some(text) => starts_with(text, "MARKET_DATA"),
        None => false,
    }
}

pub(crate) fn names_order_type(msg_type: &str) -> (yes: bool)
    ensures
        yes == is_order_type(msg_type@),
{
    same(msg_type, "D") || same(msg_type, "E") || same(msg_type, "F") || same(msg_type, "G")
        || same(msg_type, "H") || same(msg_type, "8") || same(msg_type, "9") || same(msg_type, "q")
        || same(msg_type, "r") || same(msg_type, "s") || same(msg_type, "t") || same(msg_type, "u")
        || same(msg_type, "AB") || same(msg_type, "AC")
}

/// The kind of a message, from its type and, where they are known, its name and category.
pub fn classify_message_bucket(
    msg_type: &str,
    label: Option<&str>,
    msg_cat: Option<&str>,
) -> (bucket: MessageBucket)
    ensures
        bucket == bucket_of(msg_type@, opt_str(label), opt_str(msg_cat)),
{
    let session: bool = match msg_cat {
        Some(text) => same(text, "admin"),
        None => same(msg_type, "0") || same(msg_type, "1") || same(msg_type, "2") || same(
            msg_type,
            "3",
        ) || same(msg_type, "4") || same(msg_type, "5") || same(msg_type, "A"),
    };
    if session {
        MessageBucket::SessionAdmin
    } else if names_order_type(msg_type) {
        MessageBucket::OrderFlow
    } else if same(msg_type, "V") || same(msg_type, "W") || same(msg_type, "X") || same(
        msg_type,
        "Y",
    ) || labelled_market_data(label) {
        MessageBucket::MarketData
    } else {
        MessageBucket::BusinessOther
    }
}

} // verus!
