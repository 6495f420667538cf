//! Receipts, held as the JSON text that stands for them.

use crate::codec::MAX_LENGTH_VALUE;
use vstd::prelude::*;
use vstd::slice::*;

verus! {

/// Whether `bytes` is JSON text that reads as a receipt.
pub uninterp spec fn is_receipt_json(bytes: Seq<u8>) -> bool;

/// Asks `serde_json::from_slice` to read `bytes` as an
/// `op_alloy_consensus::OpReceipt` and says whether it could. Nothing is
/// claimed of the answer but that it depends on the bytes alone.
#[verifier::external_body]
fn receipt_json_parses(bytes: &[u8]) -> (ok: bool)
    ensures
        ok == is_receipt_json(bytes@),
{
    serde_json::from_slice::<op_alloy_consensus::OpReceipt>(bytes).is_ok()
}

/// A receipt: JSON text that reads as a receipt and is short enough for its
/// length to be written in four bytes.
#[derive(Debug, PartialEq, Eq)]
pub struct Receipt {
    json: Vec<u8>,
}

impl View for Receipt {
    type V = Seq<u8>;

    closed spec fn view(&self) -> Seq<u8> {
        self.json@
    }
}

/// Whether `json` can be the text of a `Receipt`.
pub open spec fn receipt_text(json: Seq<u8>) -> bool {
    is_receipt_json(json) && json.len() <= MAX_LENGTH_VALUE
}

impl Clone for Receipt {
    fn clone(&self) -> (r: Self)
        ensures
            r@ == self@,
    {
        proof {
            use_type_invariant(self);
        }
        Receipt { json: slice_to_vec(self.json.as_slice()) }
    }
}

impl Receipt {
    #[verifier::type_invariant]
    closed spec fn is_receipt(self) -> bool {
        receipt_text(self.json@)
    }

    /// The receipt with the text `json`, given whether that text reads as a receipt.
    pub fn from_checked_json(json: Vec<u8>, parses: bool) -> (r: Option<Receipt>)
        requires
            parses == is_receipt_json(json@),
        ensures
            r is Some <==> receipt_text(json@),
            r matches Some(receipt) ==> receipt@ == json@,
    {
        if parses && json.len() <= MAX_LENGTH_VALUE {
            Some(Receipt { json })
        } else {
            None
        }
    }

    /// The receipt with the text `json`, if that text reads as a receipt.
    pub fn from_json(json: Vec<u8>) -> (r: Option<Receipt>)
        ensures
            r is Some <==> receipt_text(json@),
            r matches Some(receipt) ==> receipt@ == json@,
    {
        let parses = receipt_json_parses(json.as_slice());
        Receipt::from_checked_json(json, parses)
    }

    /// The JSON text of the receipt.
    pub fn json(&self) -> (r: &Vec<u8>)
        ensures
            r@ == self@,
            receipt_text(self@),
    {
        proof {
            use_type_invariant(self);
        }
        &self.json
    }
}

} // verus!
