//! What a contract call hands back to the chain: messages to run next,
//! attributes for the event log, and an optional data note.
use vstd::prelude::*;
use vstd::string::StringExecFns;

verus! {

/// A native coin amount.
#[derive(Debug, PartialEq, Eq)]
pub struct Coin {
    pub denom: String,
    pub amount: u128,
}

/// A call of the fungible-token contract.
#[derive(Debug, PartialEq, Eq)]
pub enum TokenCall {
    Transfer { recipient: String, amount: u128 },
    TransferFrom { owner: String, recipient: String, amount: u128 },
    Burn { amount: u128 },
}

/// A message that the chain runs after the call succeeds.
#[derive(Debug, PartialEq, Eq)]
pub enum Msg {
    /// Execute `call` on the token contract `contract`, with no funds attached.
    Token { contract: String, call: TokenCall },
    /// Send native coins.
    Bank { to_address: String, coins: Vec<Coin> },
    /// Tell `contract` that `sender` has sent it `amount` tokens along with `msg`.
    Receive { contract: String, sender: String, amount: u128, msg: Vec<u8> },
}

#[derive(Debug, PartialEq, Eq)]
pub struct Attribute {
    pub key: String,
    pub value: String,
}

#[derive(Debug, PartialEq, Eq)]
pub struct Response {
    pub messages: Vec<Msg>,
    pub attributes: Vec<Attribute>,
    pub data: Option<String>,
}

/// The key and value of an attribute, as text.
pub open spec fn attr_view(a: Attribute) -> (Seq<char>, Seq<char>) {
    (a.key@, a.value@)
}

impl Response {
    pub open spec fn attrs(&self) -> Seq<(Seq<char>, Seq<char>)> {
        self.attributes@.map_values(|a: Attribute| attr_view(a))
    }

    pub open spec fn data_text(&self) -> Option<Seq<char>> {
        match self.data {
            Some(d) => Some(d@),
            None => None,
        }
    }

    /// The empty response.
    pub fn empty() -> (r: Response)
        ensures
            r.messages@.len() == 0,
            r.attrs() == Seq::<(Seq<char>, Seq<char>)>::empty(),
            r.data.is_none(),
    {
        let r = Response { messages: Vec::new(), attributes: Vec::new(), data: None };
        assert(r.attrs() =~= Seq::<(Seq<char>, Seq<char>)>::empty());
        r
    }

    /// Appends an attribute.
    pub fn add_attr(&mut self, key: &str, value: String)
        ensures
            final(self).messages == old(self).messages,
            final(self).data == old(self).data,
            final(self).attrs() == old(self).attrs().push((key@, value@)),
    {
        let a = Attribute { key: String::from_str(key), value };
        let ghost av = attr_view(a);
        self.attributes.push(a);
        assert(self.attrs() =~= old(self).attrs().push(av));
    }

    /// Appends a message.
    pub fn add_msg(&mut self, m: Msg)
        ensures
            final(self).messages@ == old(self).messages@.push(m),
            final(self).attributes == old(self).attributes,
            final(self).data == old(self).data,
    {
        self.messages.push(m);
    }
}

/// A decimal digit.
pub open spec fn digit_char(d: nat) -> char {
    if d == 0 {
        '0'
    } else if d == 1 {
        '1'
    } else if d == 2 {
        '2'
    } else if d == 3 {
        '3'
    } else if d == 4 {
        '4'
    } else if d == 5 {
        '5'
    } else if d == 6 {
        '6'
    } else if d == 7 {
        '7'
    } else if d == 8 {
        '8'
    } else {
        '9'
    }
}

/// Decimal notation of a number, without leading zeros.
pub open spec fn decimal_text(n: nat) -> Seq<char>
    decreases n,
{
    if n < 10 {
        seq![digit_char(n)]
    } else {
        decimal_text(n / 10).push(digit_char(n % 10))
    }
}

/// The text of a decimal digit.
fn digit_string(d: u128) -> (s: String)
    requires
        d < 10,
    ensures
        s@ == seq![digit_char(d as nat)],
{
    let s = if d == 0 {
        proof {
            reveal_strlit("0");
        }
        String::from_str("0")
    } else if d == 1 {
        proof {
            reveal_strlit("1");
        }
        String::from_str("1")
    } else if d == 2 {
        proof {
            reveal_strlit("2");
        }
        String::from_str("2")
    } else if d == 3 {
        proof {
            reveal_strlit("3");
        }
        String::from_str("3")
    } else if d == 4 {
        proof {
            reveal_strlit("4");
        }
        String::from_str("4")
    } else if d == 5 {
        proof {
            reveal_strlit("5");
        }
        String::from_str("5")
    } else if d == 6 {
        proof {
            reveal_strlit("6");
        }
        String::from_str("6")
    } else if d == 7 {
        proof {
            reveal_strlit("7");
        }
        String::from_str("7")
    } else if d == 8 {
        proof {
            reveal_strlit("8");
        }
        String::from_str("8")
    } else {
        proof {
            reveal_strlit("9");
        }
        String::from_str("9")
    };
    assert(s@ =~= seq![digit_char(d as nat)]);
    s
}

/// Decimal text of `n`: decimal notation without leading zeros or sign.
pub(crate) fn decimal(n: u128) -> (s: String)
    ensures
        s@ == decimal_text(n as nat),
    decreases n,
{
    if n < 10 {
        digit_string(n)
    } else {
        let high = decimal(n / 10);
        let low = digit_string(n % 10);
        high.concat(low.as_str())
    }
}

/// The data note of a transfer: `Amount <n> transferred`.
pub open spec fn transferred_note(n: u128) -> Seq<char> {
    "Amount "@ + decimal_text(n as nat) + " transferred"@
}

pub fn transferred_text(n: u128) -> (s: String)
    ensures
        s@ == transferred_note(n),
{
    let d = decimal(n);
    String::from_str("Amount ").concat(d.as_str()).concat(" transferred")
}

/// The response of a payout from the contract: a token transfer of `amount`
/// to `to`, attributes `amount` and `action` (in that order, or `action` first),
/// and the note `Amount <amount> transferred`.
pub open spec fn payout_response(resp: Response, token: String, to: String, amount: u128, action: Seq<char>, action_first: bool) -> bool {
    &&& resp.messages@ == seq![Msg::Token { contract: token, call: TokenCall::Transfer { recipient: to, amount } }]
    &&& resp.attrs() == if action_first {
        seq![("action"@, action), ("amount"@, decimal_text(amount as nat))]
    } else {
        seq![("amount"@, decimal_text(amount as nat)), ("action"@, action)]
    }
    &&& resp.data_text() == Some(transferred_note(amount))
}

/// Builds the response of a payout.
pub fn payout(token: String, to: String, amount: u128, action: &str, action_first: bool) -> (resp: Response)
    ensures
        payout_response(resp, token, to, amount, action@, action_first),
{
    let mut resp = Response::empty();
    resp.add_msg(Msg::Token { contract: token, call: TokenCall::Transfer { recipient: to, amount } });
    if action_first {
        resp.add_attr("action", String::from_str(action));
        resp.add_attr("amount", decimal(amount));
        assert(resp.attrs() =~= seq![("action"@, action@), ("amount"@, decimal_text(amount as nat))]);
    } else {
        resp.add_attr("amount", decimal(amount));
        resp.add_attr("action", String::from_str(action));
        assert(resp.attrs() =~= seq![("amount"@, decimal_text(amount as nat)), ("action"@, action@)]);
    }
    resp.data = Some(transferred_text(amount));
    assert(resp.messages@ =~= seq![Msg::Token { contract: token, call: TokenCall::Transfer { recipient: to, amount } }]);
    resp
}

} // verus!
