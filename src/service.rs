use vstd::prelude::*;
use crate::cache::ExpirationWrapper;
use crate::card::CardSetJson;

verus! {

/// Where the catalog service keeps the document of one set, and until when
/// that document is fresh.
#[derive(Debug)]
pub struct JsonRef {
    pub cdn_root: String,
    pub url: String,
    pub expire_time: u64,
}

/// The address the service answers set questions at, without the set index.
pub open spec fn endpoint_base() -> Seq<char> {
    "https://playartifact.com/cardset/"@
}

/// A decimal digit.
pub open spec fn digit(d: nat) -> Seq<char> {
    if d == 0 {
        "0"@
    } else if d == 1 {
        "1"@
    } else if d == 2 {
        "2"@
    } else if d == 3 {
        "3"@
    } else if d == 4 {
        "4"@
    } else if d == 5 {
        "5"@
    } else if d == 6 {
        "6"@
    } else if d == 7 {
        "7"@
    } else if d == 8 {
        "8"@
    } else {
        "9"@
    }
}

/// A number written in decimal, without leading zeros.
pub open spec fn decimal(n: nat) -> Seq<char>
    decreases n,
{
    if n < 10 {
        digit(n)
    } else {
        decimal(n / 10) + digit(n % 10)
    }
}

fn digit_str(d: u8) -> (r: &'static str)
    requires
        d < 10,
    ensures
        r@ == digit(d as nat),
{
    if d == 0 {
        "0"
    } else if d == 1 {
        "1"
    } else if d == 2 {
        "2"
    } else if d == 3 {
        "3"
    } else if d == 4 {
        "4"
    } else if d == 5 {
        "5"
    } else if d == 6 {
        "6"
    } else if d == 7 {
        "7"
    } else if d == 8 {
        "8"
    } else {
        "9"
    }
}

/// The address that tells where the document of a set lies.
pub fn redirect_url(set: u8) -> (r: String)
    ensures
        r@ == endpoint_base() + decimal(set as nat),
{
    let base = String::from_str("https://playartifact.com/cardset/");
    if set >= 100 {
        let r = base.concat(digit_str(set / 100)).concat(digit_str((set / 10) % 10)).concat(
            digit_str(set % 10),
        );
        proof {
            assert(decimal(set as nat) == decimal((set / 10) as nat) + digit((set % 10) as nat));
            assert(decimal((set / 10) as nat) == decimal((set / 100) as nat) + digit(
                ((set / 10) % 10) as nat,
            ));
            assert(r@ =~= endpoint_base() + decimal(set as nat));
        }
        r
    } else if set >= 10 {
        let r = base.concat(digit_str(set / 10)).concat(digit_str(set % 10));
        proof {
            assert(decimal(set as nat) == decimal((set / 10) as nat) + digit((set % 10) as nat));
            assert(r@ =~= endpoint_base() + decimal(set as nat));
        }
        r
    } else {
        base.concat(digit_str(set))
    }
}

impl JsonRef {
    /// The address of the set's document: the CDN root followed by the path.
    pub fn document_url(&self) -> (r: String)
        ensures
            r@ == self.cdn_root@ + self.url@,
    {
        self.cdn_root.clone().concat(self.url.as_str())
    }

    /// The cache envelope of a document fetched from this place: fresh
    /// until the time the service gave.
    pub fn wrap(&self, card_set_json: CardSetJson) -> (r: ExpirationWrapper)
        ensures
            r.expire_time == self.expire_time,
            r.card_set_json == card_set_json,
    {
        ExpirationWrapper { expire_time: self.expire_time, card_set_json }
    }
}

} // verus!
