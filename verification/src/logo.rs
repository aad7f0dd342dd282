//! Logos of the token's marketing information: a URL, or an embedded SVG
//! or PNG image whose bytes are checked before it is stored.
use vstd::prelude::*;

verus! {

/// The largest embedded logo, in bytes.
pub const LOGO_SIZE_CAP: usize = 5120;

/// An embedded image.
#[derive(Debug, PartialEq, Eq)]
pub enum EmbeddedLogo {
    Svg(Vec<u8>),
    Png(Vec<u8>),
}

/// A logo: a link, or an embedded image.
#[derive(Debug, PartialEq, Eq)]
pub enum Logo {
    Url(String),
    Embedded(EmbeddedLogo),
}

/// What the marketing information records of a logo.
#[derive(Debug, PartialEq, Eq)]
pub enum LogoInfo {
    Url(String),
    Embedded,
}

#[derive(Debug, PartialEq, Eq)]
pub enum LogoError {
    LogoTooBig,
    InvalidPngHeader,
    InvalidXmlPreamble,
}

/// The first chunk of `data` up to and including its first `>`; all of it where there is none.
pub open spec fn preamble(data: Seq<u8>) -> Seq<u8>
    decreases data.len(),
{
    if data.len() == 0 {
        data
    } else if data[0] == 62u8 {
        seq![62u8]
    } else {
        seq![data[0]] + preamble(data.drop_first())
    }
}

/// The bytes of `<?xml `.
pub open spec fn xml_prefix() -> Seq<u8> {
    seq![60u8, 63u8, 120u8, 109u8, 108u8, 32u8]
}

/// The bytes of `?>`.
pub open spec fn xml_postfix() -> Seq<u8> {
    seq![63u8, 62u8]
}

/// The eight bytes that open every PNG file.
pub open spec fn png_header() -> Seq<u8> {
    seq![0x89u8, 0x50u8, 0x4eu8, 0x47u8, 0x0du8, 0x0au8, 0x1au8, 0x0au8]
}

pub open spec fn starts_with(s: Seq<u8>, p: Seq<u8>) -> bool {
    p.len() <= s.len() && s.take(p.len() as int) == p
}

pub open spec fn ends_with(s: Seq<u8>, p: Seq<u8>) -> bool {
    p.len() <= s.len() && s.skip(s.len() - p.len()) == p
}

/// The data opens with an XML declaration: its first chunk up to `>` starts
/// with `<?xml ` and ends with `?>`.
pub open spec fn xml_preamble_ok(data: Seq<u8>) -> bool {
    data.len() > 0 && starts_with(preamble(data), xml_prefix()) && ends_with(preamble(data), xml_postfix())
}

pub proof fn lemma_preamble_prefix(data: Seq<u8>)
    ensures
        preamble(data).len() <= data.len(),
        preamble(data) == data.take(preamble(data).len() as int),
        data.len() > 0 ==> preamble(data).len() > 0,
        forall|i: int| 0 <= i < preamble(data).len() - 1 ==> #[trigger] data[i] != 62u8,
        preamble(data).len() < data.len() ==> data[preamble(data).len() - 1] == 62u8,
    decreases data.len(),
{
    if data.len() > 0 && data[0] != 62u8 {
        let d = data.drop_first();
        lemma_preamble_prefix(d);
        assert(preamble(data) =~= data.take(preamble(data).len() as int));
        assert forall|i: int| 0 <= i < preamble(data).len() - 1 implies #[trigger] data[i] != 62u8 by {
            if i > 0 {
                assert(data[i] == d[i - 1]);
            }
        }
    } else if data.len() > 0 {
        assert(preamble(data) =~= data.take(1));
    }
}

fn slice_starts_with(s: &[u8], from: usize, to: usize, p: &[u8]) -> (r: bool)
    requires
        from <= to <= s@.len(),
    ensures
        r == starts_with(s@.subrange(from as int, to as int), p@),
{
    if p.len() > to - from {
        return false;
    }
    let mut i: usize = 0;
    while i < p.len()
        invariant
            i <= p@.len(),
            p@.len() <= to - from,
            from <= to <= s@.len(),
            forall|j: int| 0 <= j < i ==> s@[from + j] == p@[j],
        decreases p@.len() - i,
    {
        if s[from + i] != p[i] {
            assert(s@.subrange(from as int, to as int).take(p@.len() as int)[i as int] != p@[i as int]);
            return false;
        }
        i = i + 1;
    }
    assert(s@.subrange(from as int, to as int).take(p@.len() as int) =~= p@);
    true
}

fn slice_ends_with(s: &[u8], from: usize, to: usize, p: &[u8]) -> (r: bool)
    requires
        from <= to <= s@.len(),
    ensures
        r == ends_with(s@.subrange(from as int, to as int), p@),
{
    if p.len() > to - from {
        return false;
    }
    let start = to - p.len();
    let ghost w = s@.subrange(from as int, to as int);
    let mut i: usize = 0;
    while i < p.len()
        invariant
            i <= p@.len(),
            start == to - p@.len(),
            from <= start <= to <= s@.len(),
            w == s@.subrange(from as int, to as int),
            forall|j: int| 0 <= j < i ==> s@[start + j] == p@[j],
        decreases p@.len() - i,
    {
        if s[start + i] != p[i] {
            assert(w.skip(w.len() - p@.len())[i as int] != p@[i as int]);
            return false;
        }
        i = i + 1;
    }
    assert(w.skip(w.len() - p@.len()) =~= p@);
    true
}

/// Checks that the data opens with an XML declaration.
pub fn verify_xml_preamble(data: &[u8]) -> (r: Result<(), LogoError>)
    ensures
        r is Ok <==> xml_preamble_ok(data@),
        r is Err ==> r == Err::<(), LogoError>(LogoError::InvalidXmlPreamble),
{
    if data.len() == 0 {
        return Err(LogoError::InvalidXmlPreamble);
    }
    proof {
        lemma_preamble_prefix(data@);
    }
    let mut end: usize = 0;
    while end < data.len() && data[end] != 62u8
        invariant
            end <= data@.len(),
            forall|i: int| 0 <= i < end ==> data@[i] != 62u8,
        decreases data@.len() - end,
    {
        end = end + 1;
    }
    if end < data.len() {
        end = end + 1;
    }
    proof {
        let p = preamble(data@);
        assert(end == p.len()) by {
            if end < p.len() {
                assert(data@[end - 1] == 62u8);
                assert(end - 1 < p.len() - 1);
            } else if end > p.len() {
                assert(data@[p.len() - 1] == 62u8);
            }
        }
        assert(data@.subrange(0, end as int) =~= p);
    }
    let prefix: [u8; 6] = [60u8, 63u8, 120u8, 109u8, 108u8, 32u8];
    let postfix: [u8; 2] = [63u8, 62u8];
    assert(prefix@ =~= xml_prefix());
    assert(postfix@ =~= xml_postfix());
    if slice_starts_with(data, 0, end, &prefix) && slice_ends_with(data, 0, end, &postfix) {
        Ok(())
    } else {
        Err(LogoError::InvalidXmlPreamble)
    }
}

/// Checks an SVG logo: an XML declaration first, then its size.
pub fn verify_xml_logo(logo: &[u8]) -> (r: Result<(), LogoError>)
    ensures
        r == if !xml_preamble_ok(logo@) {
            Err::<(), LogoError>(LogoError::InvalidXmlPreamble)
        } else if logo@.len() > LOGO_SIZE_CAP {
            Err(LogoError::LogoTooBig)
        } else {
            Ok(())
        },
{
    match verify_xml_preamble(logo) {
        Err(e) => {
            return Err(e);
        },
        Ok(()) => {},
    }
    if logo.len() > LOGO_SIZE_CAP {
        Err(LogoError::LogoTooBig)
    } else {
        Ok(())
    }
}

/// Checks a PNG logo: its size first, then the PNG header.
pub fn verify_png_logo(logo: &[u8]) -> (r: Result<(), LogoError>)
    ensures
        r == if logo@.len() > LOGO_SIZE_CAP {
            Err::<(), LogoError>(LogoError::LogoTooBig)
        } else if !starts_with(logo@, png_header()) {
            Err(LogoError::InvalidPngHeader)
        } else {
            Ok(())
        },
{
    let header: [u8; 8] = [0x89u8, 0x50u8, 0x4eu8, 0x47u8, 0x0du8, 0x0au8, 0x1au8, 0x0au8];
    assert(header@ =~= png_header());
    if logo.len() > LOGO_SIZE_CAP {
        Err(LogoError::LogoTooBig)
    } else if !slice_starts_with(logo, 0, logo.len(), &header) {
        assert(logo@.subrange(0, logo@.len() as int) =~= logo@);
        Err(LogoError::InvalidPngHeader)
    } else {
        assert(logo@.subrange(0, logo@.len() as int) =~= logo@);
        Ok(())
    }
}

/// What checking a logo yields: embedded images are checked, links are not.
pub open spec fn logo_check(logo: Logo) -> Result<(), LogoError> {
    match logo {
        Logo::Url(_) => Ok(()),
        Logo::Embedded(EmbeddedLogo::Svg(d)) => if !xml_preamble_ok(d@) {
            Err(LogoError::InvalidXmlPreamble)
        } else if d@.len() > LOGO_SIZE_CAP {
            Err(LogoError::LogoTooBig)
        } else {
            Ok(())
        },
        Logo::Embedded(EmbeddedLogo::Png(d)) => if d@.len() > LOGO_SIZE_CAP {
            Err(LogoError::LogoTooBig)
        } else if !starts_with(d@, png_header()) {
            Err(LogoError::InvalidPngHeader)
        } else {
            Ok(())
        },
    }
}

/// Checks a logo before it is stored.
pub fn verify_logo(logo: &Logo) -> (r: Result<(), LogoError>)
    ensures
        r == logo_check(*logo),
{
    match logo {
        Logo::Embedded(EmbeddedLogo::Svg(d)) => verify_xml_logo(d.as_slice()),
        Logo::Embedded(EmbeddedLogo::Png(d)) => verify_png_logo(d.as_slice()),
        Logo::Url(_) => Ok(()),
    }
}

} // verus!
