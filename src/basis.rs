use vstd::prelude::*;

use crate::dialect::{bytes_equal, AdaptError};

verus! {

/// A VM fork whose binaries need adapting before disassembly.
#[derive(Debug, Clone, Copy, PartialEq, Eq, Structural)]
pub enum SourceType {
    Diem,
    Dfinance,
}

/// `diem`, the tag of Diem binaries.
pub open spec fn diem_tag() -> Seq<u8> {
    seq![100u8, 105u8, 101u8, 109u8]
}

/// `dfinance`, the tag of dfinance binaries.
pub open spec fn dfinance_tag() -> Seq<u8> {
    seq![100u8, 102u8, 105u8, 110u8, 97u8, 110u8, 99u8, 101u8]
}

/// `pont`, the tag of binaries already in the disassembler's basis.
pub open spec fn canonical_tag() -> Seq<u8> {
    seq![112u8, 111u8, 110u8, 116u8]
}

/// What a fork tag asks for: `Some(None)` for the canonical basis, `Some(Some(f))`
/// for fork `f`, `None` for an unknown tag.
pub open spec fn fork_of_tag(tag: Seq<u8>) -> Option<Option<SourceType>> {
    if tag == canonical_tag() {
        Some(None)
    } else if tag == diem_tag() {
        Some(Some(SourceType::Diem))
    } else if tag == dfinance_tag() {
        Some(Some(SourceType::Dfinance))
    } else {
        None
    }
}

/// Selects the adaptation that a binary of fork `tag` needs. Binaries in the
/// canonical basis need none, and are left as they are; an unknown tag fails and
/// leaves the binary untouched. The returned fork's adaptation is the caller's to run.
pub fn select_basis(bytes: &mut Vec<u8>, tag: &[u8]) -> (r: Result<Option<SourceType>, AdaptError>)
    ensures
        final(bytes)@ == old(bytes)@,
        match fork_of_tag(tag@) {
            Some(f) => r == Ok::<Option<SourceType>, AdaptError>(f),
            None => r matches Err(e) && e.fork@ == tag@,
        },
{
    let pont: Vec<u8> = vec![112u8, 111u8, 110u8, 116u8];
    let diem: Vec<u8> = vec![100u8, 105u8, 101u8, 109u8];
    let dfinance: Vec<u8> = vec![100u8, 102u8, 105u8, 110u8, 97u8, 110u8, 99u8, 101u8];
    assert(pont@ =~= canonical_tag());
    assert(diem@ =~= diem_tag());
    assert(dfinance@ =~= dfinance_tag());
    if bytes_equal(tag, pont.as_slice()) {
        Ok(None)
    } else if bytes_equal(tag, diem.as_slice()) {
        Ok(Some(SourceType::Diem))
    } else if bytes_equal(tag, dfinance.as_slice()) {
        Ok(Some(SourceType::Dfinance))
    } else {
        Err(AdaptError { fork: crate::address::copy_bytes(tag) })
    }
}

} // verus!
