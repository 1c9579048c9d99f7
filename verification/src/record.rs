//! Signature records: what is known of one function under one fingerprint.

use vstd::prelude::*;
use crate::fingerprint::Fingerprint;

verus! {

/// The mathematical value of a `SignatureRecord`. Two records are the same
/// candidate exactly when their values are equal.
pub struct RecordView {
    pub fingerprint: Fingerprint,
    pub symbol: Seq<char>,
    pub signature: Seq<char>,
    pub provenance: Option<Seq<char>>,
}

/// One candidate for a fingerprint: a symbol name, a type signature and,
/// where known, where the record came from.
#[derive(Clone, Debug, PartialEq, Eq)]
pub struct SignatureRecord {
    pub fingerprint: Fingerprint,
    pub symbol: String,
    pub signature: String,
    pub provenance: Option<String>,
}

impl View for SignatureRecord {
    type V = RecordView;

    open spec fn view(&self) -> RecordView {
        RecordView {
            fingerprint: self.fingerprint,
            symbol: self.symbol@,
            signature: self.signature@,
            provenance: match self.provenance {
                Some(text) => Some(text@),
                None => None,
            },
        }
    }
}

/// The values of a sequence of records, in the same order.
pub open spec fn record_views(records: Seq<SignatureRecord>) -> Seq<RecordView> {
    records.map_values(|record: SignatureRecord| record@)
}

impl SignatureRecord {
    pub fn new(
        fingerprint: Fingerprint,
        symbol: String,
        signature: String,
        provenance: Option<String>,
    ) -> (record: SignatureRecord)
        ensures
            record.fingerprint == fingerprint,
            record.symbol == symbol,
            record.signature == signature,
            record.provenance == provenance,
    {
        SignatureRecord { fingerprint, symbol, signature, provenance }
    }

    /// Whether two records are the same candidate: all four parts equal.
    pub fn same_as(&self, other: &SignatureRecord) -> (same: bool)
        ensures
            same == (self@ == other@),
    {
        let provenance_same = match (&self.provenance, &other.provenance) {
            (Some(mine), Some(theirs)) => {
                let same = *mine == *theirs;
                same
            },
            (None, None) => true,
            _ => false,
        };
        self.fingerprint == other.fingerprint && self.symbol == other.symbol && self.signature
            == other.signature && provenance_same
    }

    /// A copy of the record with the same value.
    pub fn duplicate(&self) -> (copy: SignatureRecord)
        ensures
            copy@ == self@,
    {
        let provenance = match &self.provenance {
            Some(text) => Some(text.clone()),
            None => None,
        };
        SignatureRecord {
            fingerprint: self.fingerprint,
            symbol: self.symbol.clone(),
            signature: self.signature.clone(),
            provenance,
        }
    }
}

} // verus!
