//! The token's marketing information and logo, and the token's queries.
use vstd::prelude::*;
use vstd::string::StringExecFns;
use crate::logo::{EmbeddedLogo, Logo, LogoInfo, logo_check, verify_logo};
use crate::response::Response;
use crate::table::lookup;
use crate::token::{MarketingInfo, Token, TokenError, VestingDetails};
use crate::token_setup::{logo_info, logo_info_of};
use crate::vesting::{clone_opt_text, clone_schedule};

verus! {

/// Unicode's `White_Space` property: the characters trimmed from a text.
pub open spec fn is_white_space(c: char) -> bool {
    ||| '\u{9}' <= c <= '\u{d}'
    ||| c == ' '
    ||| c == '\u{85}'
    ||| c == '\u{a0}'
    ||| c == '\u{1680}'
    ||| '\u{2000}' <= c <= '\u{200a}'
    ||| c == '\u{2028}'
    ||| c == '\u{2029}'
    ||| c == '\u{202f}'
    ||| c == '\u{205f}'
    ||| c == '\u{3000}'
}

/// A text without its leading white space.
pub open spec fn trim_start(s: Seq<char>) -> Seq<char>
    decreases s.len(),
{
    if s.len() > 0 && is_white_space(s[0]) {
        trim_start(s.drop_first())
    } else {
        s
    }
}

/// A text without its trailing white space.
pub open spec fn trim_end(s: Seq<char>) -> Seq<char>
    decreases s.len(),
{
    if s.len() > 0 && is_white_space(s.last()) {
        trim_end(s.drop_last())
    } else {
        s
    }
}

/// What trimming leaves of a text: the text without its leading and
/// trailing white space.
pub open spec fn trimmed(s: Seq<char>) -> Seq<char> {
    trim_end(trim_start(s))
}

/// A text that is empty once trimmed.
pub open spec fn blank(s: Seq<char>) -> bool {
    trimmed(s).len() == 0
}

/// Whether a character is white space.
fn white_space(c: char) -> (r: bool)
    ensures
        r == is_white_space(c),
{
    ('\u{9}' <= c && c <= '\u{d}') || c == ' ' || c == '\u{85}' || c == '\u{a0}' || c == '\u{1680}'
        || ('\u{2000}' <= c && c <= '\u{200a}') || c == '\u{2028}' || c == '\u{2029}' || c == '\u{202f}'
        || c == '\u{205f}' || c == '\u{3000}'
}

/// Trimming the start leaves nothing exactly where every character is white
/// space, and otherwise leaves a text that starts with a character that is not.
proof fn lemma_trim_start(s: Seq<char>)
    ensures
        trim_start(s).len() == 0 <==> forall|i: int| 0 <= i < s.len() ==> is_white_space(#[trigger] s[i]),
        trim_start(s).len() > 0 ==> !is_white_space(trim_start(s)[0]),
    decreases s.len(),
{
    if s.len() > 0 && is_white_space(s[0]) {
        let t = s.drop_first();
        lemma_trim_start(t);
        if forall|i: int| 0 <= i < t.len() ==> is_white_space(#[trigger] t[i]) {
            assert forall|i: int| 0 <= i < s.len() implies is_white_space(#[trigger] s[i]) by {
                if i > 0 {
                    assert(s[i] == t[i - 1]);
                }
            }
        } else {
            let j = choose|j: int| 0 <= j < t.len() && !is_white_space(#[trigger] t[j]);
            assert(s[j + 1] == t[j]);
        }
    } else if s.len() > 0 {
        assert(!is_white_space(s[0]));
    }
}

/// Trimming the end of a text that starts with a character that is not white
/// space leaves something.
proof fn lemma_trim_end_keeps_first(t: Seq<char>)
    requires
        t.len() > 0,
        !is_white_space(t[0]),
    ensures
        trim_end(t).len() > 0,
    decreases t.len(),
{
    if is_white_space(t.last()) {
        assert(t.len() > 1);
        assert(t.drop_last()[0] == t[0]);
        lemma_trim_end_keeps_first(t.drop_last());
    }
}

/// A text is blank exactly where every character is white space.
proof fn lemma_blank_iff_white(s: Seq<char>)
    ensures
        blank(s) <==> forall|i: int| 0 <= i < s.len() ==> is_white_space(#[trigger] s[i]),
{
    lemma_trim_start(s);
    let t = trim_start(s);
    if t.len() > 0 {
        lemma_trim_end_keeps_first(t);
    } else {
        assert(trim_end(t) == t);
    }
}

/// Whether a text is blank: empty, or white space alone.
fn is_blank(s: &str) -> (r: bool)
    ensures
        r == blank(s@),
{
    proof {
        lemma_blank_iff_white(s@);
    }
    let n = s.unicode_len();
    let mut i: usize = 0;
    while i < n
        invariant
            n == s@.len(),
            i <= n,
            forall|j: int| 0 <= j < i ==> is_white_space(#[trigger] s@[j]),
            blank(s@) <==> forall|j: int| 0 <= j < s@.len() ==> is_white_space(#[trigger] s@[j]),
        decreases n - i,
    {
        let c = s.get_char(i);
        if !white_space(c) {
            return false;
        }
        i = i + 1;
    }
    true
}

/// The new value of a marketing text: unchanged where no text is given,
/// cleared where the given text is blank, else the given text.
pub open spec fn updated_text(current: Option<String>, update: Option<String>) -> Option<String> {
    match update {
        None => current,
        Some(t) => if blank(t@) {
            None
        } else {
            Some(t)
        },
    }
}

/// The new value of a marketing text, knowing whether the given text is blank.
pub fn marketing_text(current: Option<String>, update: Option<String>, update_blank: bool) -> (r: Option<String>)
    ensures
        r == match update {
            None => current,
            Some(t) => if update_blank {
                None
            } else {
                Some(t)
            },
        },
{
    match update {
        None => current,
        Some(t) => if update_blank {
            None
        } else {
            Some(t)
        },
    }
}

fn updated(current: Option<String>, update: Option<String>) -> (r: Option<String>)
    ensures
        r == updated_text(current, update),
{
    let is_blank = match &update {
        Some(t) => is_blank(t.as_str()),
        None => false,
    };
    marketing_text(current, update, is_blank)
}

pub fn clone_logo_info(l: &Option<LogoInfo>) -> (r: Option<LogoInfo>)
    ensures
        r == *l,
{
    match l {
        Some(LogoInfo::Url(u)) => Some(LogoInfo::Url(u.clone())),
        Some(LogoInfo::Embedded) => Some(LogoInfo::Embedded),
        None => None,
    }
}

pub fn clone_marketing(m: &MarketingInfo) -> (r: MarketingInfo)
    ensures
        r == *m,
{
    MarketingInfo {
        project: clone_opt_text(&m.project),
        description: clone_opt_text(&m.description),
        marketing: clone_opt_text(&m.marketing),
        logo: clone_logo_info(&m.logo),
    }
}

fn copy_bytes(d: &Vec<u8>) -> (r: Vec<u8>)
    ensures
        r@ == d@,
{
    let mut r: Vec<u8> = Vec::new();
    let mut i: usize = 0;
    while i < d.len()
        invariant
            i <= d@.len(),
            r@ == d@.take(i as int),
        decreases d@.len() - i,
    {
        r.push(d[i]);
        assert(r@ =~= d@.take(i + 1));
        i = i + 1;
    }
    assert(d@.take(d@.len() as int) =~= d@);
    r
}

/// Whether `who` is the marketing account.
pub open spec fn is_marketer(m: Option<MarketingInfo>, who: Seq<char>) -> bool {
    m matches Some(x) && x.marketing matches Some(a) && a@ == who
}

/// The name, symbol, decimals and total supply of the token.
#[derive(Debug, PartialEq, Eq)]
pub struct TokenInfoResponse {
    pub name: String,
    pub symbol: String,
    pub decimals: u8,
    pub total_supply: u128,
}

/// The minter and its cap.
#[derive(Debug, PartialEq, Eq)]
pub struct MinterResponse {
    pub minter: String,
    pub cap: Option<u128>,
}

/// An embedded logo with its media type.
#[derive(Debug, PartialEq, Eq)]
pub struct DownloadLogoResponse {
    pub mime_type: String,
    pub data: Vec<u8>,
}

impl Token {
    /// The marketing account only: changes the project, description and
    /// marketing account; a blank text clears its field; with every field
    /// and the logo gone, the marketing information is removed.
    pub fn execute_update_marketing(
        &mut self,
        sender: &String,
        project: Option<String>,
        description: Option<String>,
        marketing: Option<String>,
    ) -> (r: Result<Response, TokenError>)
        ensures
            !is_marketer(old(self).marketing, sender@) ==> r == Err::<
                Response,
                TokenError,
            >(TokenError::Unauthorized) && *final(self) == *old(self),
            is_marketer(old(self).marketing, sender@) ==> ({
                let m = old(self).marketing->Some_0;
                let n = MarketingInfo {
                    project: updated_text(m.project, project),
                    description: updated_text(m.description, description),
                    marketing: updated_text(m.marketing, marketing),
                    logo: m.logo,
                };
                &&& r matches Ok(resp) && resp.messages@.len() == 0 && resp.data.is_none() && resp.attrs() == seq![
                    ("action"@, "update_marketing"@),
                ]
                &&& final(self).marketing == if n.project is None && n.description is None && n.marketing is None
                    && n.logo is None {
                    None
                } else {
                    Some(n)
                }
                &&& final(self).token_info == old(self).token_info
                &&& final(self).balances == old(self).balances
                &&& final(self).logo == old(self).logo
                &&& final(self).vesting == old(self).vesting
                &&& final(self).allowances == old(self).allowances
            }),
    {
        let m = match &self.marketing {
            None => {
                return Err(TokenError::Unauthorized);
            },
            Some(m) => clone_marketing(m),
        };
        match &m.marketing {
            None => {
                return Err(TokenError::Unauthorized);
            },
            Some(a) => {
                if !a.eq(sender) {
                    return Err(TokenError::Unauthorized);
                }
            },
        }
        let n = MarketingInfo {
            project: updated(m.project, project),
            description: updated(m.description, description),
            marketing: updated(m.marketing, marketing),
            logo: m.logo,
        };
        if n.project.is_none() && n.description.is_none() && n.marketing.is_none() && n.logo.is_none() {
            self.marketing = None;
        } else {
            self.marketing = Some(n);
        }
        let mut resp = Response::empty();
        resp.add_attr("action", String::from_str("update_marketing"));
        Ok(resp)
    }

    /// The marketing account only: stores a checked logo and records it in
    /// the marketing information.
    pub fn execute_upload_logo(&mut self, sender: &String, logo: Logo) -> (r: Result<Response, TokenError>)
        ensures
            old(self).marketing is None ==> r == Err::<Response, TokenError>(TokenError::Unauthorized) && *final(self)
                == *old(self),
            old(self).marketing is Some && logo_check(logo) is Err ==> r == Err::<Response, TokenError>(
                TokenError::Logo(logo_check(logo)->Err_0),
            ) && *final(self) == *old(self),
            old(self).marketing is Some && logo_check(logo) is Ok && !is_marketer(old(self).marketing, sender@) ==> r
                == Err::<Response, TokenError>(TokenError::Unauthorized) && *final(self) == *old(self),
            old(self).marketing is Some && logo_check(logo) is Ok && is_marketer(old(self).marketing, sender@) ==> ({
                &&& r matches Ok(resp) && resp.messages@.len() == 0 && resp.data.is_none() && resp.attrs() == seq![
                    ("action"@, "upload_logo"@),
                ]
                &&& final(self).logo == Some(logo)
                &&& final(self).marketing == Some(
                    MarketingInfo { logo: Some(logo_info_of(logo)), ..old(self).marketing->Some_0 },
                )
                &&& final(self).token_info == old(self).token_info
                &&& final(self).balances == old(self).balances
                &&& final(self).vesting == old(self).vesting
                &&& final(self).allowances == old(self).allowances
            }),
    {
        let m = match &self.marketing {
            None => {
                return Err(TokenError::Unauthorized);
            },
            Some(m) => clone_marketing(m),
        };
        match verify_logo(&logo) {
            Err(e) => {
                return Err(TokenError::Logo(e));
            },
            Ok(()) => {},
        }
        match &m.marketing {
            None => {
                return Err(TokenError::Unauthorized);
            },
            Some(a) => {
                if !a.eq(sender) {
                    return Err(TokenError::Unauthorized);
                }
            },
        }
        let info = logo_info(&logo);
        self.logo = Some(logo);
        self.marketing = Some(MarketingInfo { logo: Some(info), ..m });
        let mut resp = Response::empty();
        resp.add_attr("action", String::from_str("upload_logo"));
        Ok(resp)
    }

    /// The marketing information; all fields empty where there is none.
    pub fn query_marketing_info(&self) -> (r: MarketingInfo)
        ensures
            r == match self.marketing {
                Some(m) => m,
                None => MarketingInfo { project: None, description: None, marketing: None, logo: None },
            },
    {
        match &self.marketing {
            Some(m) => clone_marketing(m),
            None => MarketingInfo { project: None, description: None, marketing: None, logo: None },
        }
    }

    /// The embedded logo with its media type; none for a link or no logo.
    pub fn query_download_logo(&self) -> (r: Result<DownloadLogoResponse, TokenError>)
        ensures
            match self.logo {
                Some(Logo::Embedded(EmbeddedLogo::Svg(d))) => r matches Ok(x) && x.mime_type@ == "image/svg+xml"@
                    && x.data@ == d@,
                Some(Logo::Embedded(EmbeddedLogo::Png(d))) => r matches Ok(x) && x.mime_type@ == "image/png"@ && x.data@
                    == d@,
                _ => r == Err::<DownloadLogoResponse, TokenError>(TokenError::LogoNotFound),
            },
    {
        match &self.logo {
            Some(Logo::Embedded(EmbeddedLogo::Svg(d))) => Ok(
                DownloadLogoResponse { mime_type: String::from_str("image/svg+xml"), data: copy_bytes(d) },
            ),
            Some(Logo::Embedded(EmbeddedLogo::Png(d))) => Ok(
                DownloadLogoResponse { mime_type: String::from_str("image/png"), data: copy_bytes(d) },
            ),
            _ => Err(TokenError::LogoNotFound),
        }
    }

    /// The token's name, symbol, decimals and total supply.
    pub fn query_token_info(&self) -> (r: TokenInfoResponse)
        ensures
            r == (TokenInfoResponse {
                name: self.token_info.name,
                symbol: self.token_info.symbol,
                decimals: self.token_info.decimals,
                total_supply: self.token_info.total_supply,
            }),
    {
        TokenInfoResponse {
            name: self.token_info.name.clone(),
            symbol: self.token_info.symbol.clone(),
            decimals: self.token_info.decimals,
            total_supply: self.token_info.total_supply,
        }
    }

    /// The minter and its cap, if the token has a minter.
    pub fn query_minter(&self) -> (r: Option<MinterResponse>)
        ensures
            r == match self.token_info.mint {
                Some(m) => Some(MinterResponse { minter: m.minter, cap: m.cap }),
                None => None,
            },
    {
        match &self.token_info.mint {
            Some(m) => Some(MinterResponse { minter: m.minter.clone(), cap: m.cap }),
            None => None,
        }
    }

    /// A wallet's vesting schedule.
    pub fn query_vesting_details(&self, address: &String) -> (r: Result<VestingDetails, TokenError>)
        requires
            self.wf(),
        ensures
            match lookup(self.vesting@, address@) {
                Some(v) => r matches Ok(d) && d@ == v,
                None => r == Err::<VestingDetails, TokenError>(TokenError::NoVestingDetails),
            },
    {
        match self.vesting.get(address) {
            Some(v) => Ok(clone_schedule(v)),
            None => Err(TokenError::NoVestingDetails),
        }
    }
}

} // verus!
