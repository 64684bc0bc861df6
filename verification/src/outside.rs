//! The outside crates that the library leans on for what it does not decide
//! itself, each behind one function, with what is relied on of it.
use crate::qr::{all_weighable, code_views, square};
use crate::text::{all_ascii, ascii_lower};
use qrcode::bits::encode_auto;
use qrcode::canvas::{Canvas, MaskPattern};
use qrcode::ec::construct_codewords;
use qrcode::EcLevel;
use vstd::prelude::*;
use vstd::utf8::{decode_utf8, valid_utf8};

verus! {

/// The picture that `qrcode` draws of `data`, as half-block characters with a
/// quiet zone, or the message of its error.
pub uninterp spec fn qr_picture(data: Seq<u8>) -> Result<Seq<char>, Seq<char>>;

/// The codes between which `qrcode` chooses the picture of `data`: how many
/// modules they have to a side, and the dark ones under each mask, row by row.
/// None where it makes no code of `data`.
pub uninterp spec fn qr_masks(data: Seq<u8>) -> Option<(nat, Seq<Seq<bool>>)>;

/// The steps that `qrcode::QrCode::new` takes before it chooses a mask, by the
/// functions of its `bits`, `ec` and `canvas` modules, and then
/// `Canvas::apply_mask` for each of the eight masks that it weighs. The outcome
/// depends on `data` alone; each code is a square of 21 to 177 modules to a
/// side. What it looks like is not stated.
#[allow(deprecated)]
#[verifier::external_body]
pub(crate) fn mask_qr(data: &[u8]) -> (res: Option<(usize, Vec<Vec<bool>>)>)
    ensures
        match res {
            Some(m) => qr_masks(data@) == Some((m.0 as nat, code_views(m.1@))) && m.1@.len() == 8
                && forall|k: int| 0 <= k < 8 ==> square(#[trigger] m.1@[k]@, m.0 as nat),
            None => qr_masks(data@) is None,
        },
{
    let bits = encode_auto(data, EcLevel::M).ok()?;
    let v = bits.version();
    let words = construct_codewords(&bits.into_bytes(), v, EcLevel::M).ok()?;
    let mut plain = Canvas::new(v, EcLevel::M);
    plain.draw_all_functional_patterns();
    plain.draw_data(&words.0, &words.1);
    let under = |mask| { let mut code = plain.clone(); code.apply_mask(mask); code.to_bools() };
    let codes = vec![
        under(MaskPattern::Checkerboard), under(MaskPattern::HorizontalLines),
        under(MaskPattern::VerticalLines), under(MaskPattern::DiagonalLines),
        under(MaskPattern::LargeCheckerboard), under(MaskPattern::Fields),
        under(MaskPattern::Diamonds), under(MaskPattern::Meadow),
    ];
    Some((v.width() as usize, codes))
}

/// Whether `qrcode` can draw `data` or says why not: it adds up the penalty of
/// each mask in 16 bits.
pub open spec fn drawable(data: Seq<u8>) -> bool {
    match qr_masks(data) {
        Some((width, codes)) => all_weighable(codes, width),
        None => true,
    }
}

/// `qrcode::QrCode::new` and its `unicode::Dense1x2` rendering: the outcome
/// depends on `data` alone. What the picture looks like is not stated.
#[verifier::external_body]
pub(crate) fn draw_qr(data: &[u8]) -> (res: Result<String, String>)
    requires
        drawable(data@),
    ensures
        match res {
            Ok(picture) => qr_picture(data@) == Ok::<Seq<char>, Seq<char>>(picture@),
            Err(e) => qr_picture(data@) == Err::<Seq<char>, Seq<char>>(e@),
        },
{
    match qrcode::QrCode::new(data) {
        Ok(code) => Ok(
            code.render::<qrcode::render::unicode::Dense1x2>().quiet_zone(true).build(),
        ),
        Err(e) => Err(e.to_string()),
    }
}

/// The SHA-1 digest of `data`.
pub uninterp spec fn sha1_digest(data: Seq<u8>) -> Seq<u8>;

/// `sha1::Sha1::digest`: the digest of `data`, twenty bytes long.
#[verifier::external_body]
pub(crate) fn sha1(data: &[u8]) -> (res: Vec<u8>)
    ensures
        res@ == sha1_digest(data@),
        res@.len() == 20,
{
    <sha1::Sha1 as sha1::Digest>::digest(data).to_vec()
}

/// The character that stands for six bits.
pub open spec fn base64_char(bits: int) -> char {
    "ABCDEFGHIJKLMNOPQRSTUVWXYZabcdefghijklmnopqrstuvwxyz0123456789+/"@[bits]
}

/// `data` in base64: four characters for three bytes, the last group filled
/// up with `=`.
pub open spec fn base64_text(data: Seq<u8>) -> Seq<char>
    decreases data.len(),
{
    if data.len() == 0 {
        seq![]
    } else {
        let a = data[0] as int;
        let b = if data.len() > 1 { data[1] as int } else { 0 };
        let c = if data.len() > 2 { data[2] as int } else { 0 };
        let group = seq![
            base64_char(a / 4),
            base64_char(a % 4 * 16 + b / 16),
            if data.len() > 1 { base64_char(b % 16 * 4 + c / 64) } else { '=' },
            if data.len() > 2 { base64_char(c % 64) } else { '=' },
        ];
        if data.len() <= 3 {
            group
        } else {
            group + base64_text(data.skip(3))
        }
    }
}

/// `base64::Engine::encode` of the engine `STANDARD`: base64 with the
/// alphabet that ends in `+/`, padded. It panics where the size of the result
/// does not fit, hence the bound.
#[verifier::external_body]
pub(crate) fn base64(data: &[u8]) -> (res: String)
    requires
        data@.len() <= 0x1000_0000,
    ensures
        res@ == base64_text(data@),
{
    base64::Engine::encode(&base64::engine::general_purpose::STANDARD, data)
}

/// A styled line of text, for a terminal; opaque here.
#[verifier::external_type_specification]
#[verifier::external_body]
pub struct ExLine<'a>(ratatui::text::Line<'a>);

/// The styled lines that `ansi-to-tui` makes of bytes with ANSI escapes; none
/// where it cannot read them.
pub uninterp spec fn ansi_lines(data: Seq<u8>) -> Option<Seq<ratatui::text::Line<'static>>>;

/// `ansi_to_tui::IntoText::into_text`: the lines of the text that it makes,
/// which depend on `data` alone. How they look is not stated.
#[verifier::external_body]
pub(crate) fn styled_lines(data: &[u8]) -> (res: Option<Vec<ratatui::text::Line<'static>>>)
    ensures
        match res {
            Some(lines) => ansi_lines(data@) == Some(lines@),
            None => ansi_lines(data@) is None,
        },
{
    ansi_to_tui::IntoText::into_text(&data).ok().map(|t| t.lines)
}

/// The line without any style that `ratatui` makes of a text.
pub uninterp spec fn unstyled_line(text: Seq<char>) -> ratatui::text::Line<'static>;

/// `ratatui::text::Line::raw`: a line that holds `text` in the default style.
#[verifier::external_body]
pub(crate) fn raw_line(text: String) -> (res: ratatui::text::Line<'static>)
    ensures
        res == unstyled_line(text@),
{
    ratatui::text::Line::raw(text)
}

/// `data` without its ANSI escapes, as `strip-ansi-escapes` leaves it.
pub uninterp spec fn without_escapes(data: Seq<u8>) -> Seq<u8>;

/// `strip_ansi_escapes::strip`: what remains of `data`, which depends on
/// `data` alone. Which bytes count as an escape is not stated.
#[verifier::external_body]
pub(crate) fn strip_escapes(data: &[u8]) -> (res: Vec<u8>)
    ensures
        res@ == without_escapes(data@),
{
    strip_ansi_escapes::strip(data)
}

/// `data` read as UTF-8, with replacement characters for what is not valid.
pub uninterp spec fn lossy_text(data: Seq<u8>) -> Seq<char>;

/// `String::from_utf8_lossy`: valid UTF-8 is read as it is. How many
/// replacement characters stand for bytes that are not valid is not stated.
#[verifier::external_body]
pub(crate) fn read_lossy(data: &[u8]) -> (res: String)
    ensures
        res@ == lossy_text(data@),
        valid_utf8(data@) ==> res@ == decode_utf8(data@),
{
    String::from_utf8_lossy(data).into_owned()
}

/// `s` in lower case, by the rules of Unicode.
pub uninterp spec fn lowercase(s: Seq<char>) -> Seq<char>;

/// `str::to_lowercase`: a text of ASCII characters has its letters `A` to `Z`
/// replaced. What becomes of other letters is not stated.
#[verifier::external_body]
pub(crate) fn lowered(s: &str) -> (res: String)
    ensures
        res@ == lowercase(s@),
        all_ascii(s@) ==> res@ == s@.map_values(|c: char| ascii_lower(c)),
{
    s.to_lowercase()
}

} // verus!
