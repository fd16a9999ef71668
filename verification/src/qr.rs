//! QR codes.

use vstd::prelude::*;
use vstd::string::StringSliceAdditionalSpecFns;

verus! {

broadcast use {
    vstd::seq::group_seq_axioms,
    vstd::string::group_string_axioms,
    vstd::std_specs::vec::group_vec_axioms,
};

/// The width of a QR code and its modules, row by row, where dark is true.
pub uninterp spec fn qr_code_of(data: Seq<u8>) -> Option<(nat, Seq<bool>)>;

/// A QR code can be this wide: the smallest has 21 modules, each of the 39
/// larger ones four more.
pub open spec fn is_width(w: nat) -> bool {
    21 <= w <= 177 && (w - 21) % 4 == 0
}

/// `qrcode::QrCode::new` with `width` and `to_colors`: the code of the data,
/// which is a square of one of forty widths, or nothing where the data is too
/// long. It depends on the data alone.
#[verifier::external_body]
pub(crate) fn encode_qr(data: &[u8]) -> (r: Option<(usize, Vec<bool>)>)
    ensures
        r is Some == qr_code_of(data@) is Some,
        r matches Some(c) ==> qr_code_of(data@) == Some((c.0 as nat, c.1@)) && c.1@.len() == c.0
            * c.0 && is_width(c.0 as nat),
{
    let code = qrcode::QrCode::new(data).ok()?;
    let cells = code
        .to_colors()
        .into_iter()
        .map(|c| match c {
            qrcode::Color::Dark => true,
            qrcode::Color::Light => false,
        })
        .collect();
    Some((code.width(), cells))
}

/// The QR code of a text: its width and its modules, row by row. An empty
/// text has none, nor has one that is too long.
pub fn qr_module_matrix(data: &str) -> (r: Option<(usize, Vec<bool>)>)
    ensures
        data.spec_bytes().len() == 0 ==> r is None,
        data.spec_bytes().len() > 0 ==> r is Some == qr_code_of(data.spec_bytes()) is Some,
        r matches Some(c) ==> qr_code_of(data.spec_bytes()) == Some((c.0 as nat, c.1@))
            && c.1@.len() == c.0 * c.0 && is_width(c.0 as nat),
{
    let bytes = data.as_bytes();
    if bytes.len() == 0 {
        return None;
    }
    encode_qr(bytes)
}

} // verus!
