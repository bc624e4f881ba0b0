use view_store::hash::BlockHash;
use view_store::messages::{
    CandidateDescriptor, CandidateHash, HypotheticalCandidate, ParaId, PersistedValidationData,
};

fn hash(byte: u8) -> BlockHash {
    BlockHash::new([byte; 32])
}

fn complete(parent_head: Vec<u8>) -> HypotheticalCandidate {
    HypotheticalCandidate::Complete {
        candidate_hash: CandidateHash(hash(1)),
        receipt: CandidateDescriptor { para_id: ParaId(2000), relay_parent: hash(2) },
        persisted_validation_data: PersistedValidationData { parent_head },
    }
}

fn incomplete() -> HypotheticalCandidate {
    HypotheticalCandidate::Incomplete {
        candidate_hash: CandidateHash(hash(5)),
        candidate_para: ParaId(3000),
        parent_head_data_hash: hash(6),
        candidate_relay_parent: hash(7),
    }
}

#[test]
fn complete_candidate_answers_from_its_receipt() {
    let candidate = complete(vec![1, 2, 3]);
    assert_eq!(candidate.candidate_hash(), CandidateHash(hash(1)));
    assert_eq!(candidate.candidate_para(), ParaId(2000));
    assert_eq!(candidate.relay_parent(), hash(2));
}

#[test]
fn complete_candidate_hashes_its_parent_head() {
    let candidate = complete(vec![1, 2, 3]);
    assert_eq!(candidate.parent_head_data_hash(), BlockHash::of(&[1, 2, 3]));
    assert_ne!(candidate.parent_head_data_hash(), BlockHash::of(&[1, 2, 4]));
    // The digest of "abc".
    let expected: [u8; 32] = [
        0xbd, 0xdd, 0x81, 0x3c, 0x63, 0x42, 0x39, 0x72, 0x31, 0x71, 0xef, 0x3f, 0xee, 0x98, 0x57,
        0x9b, 0x94, 0x96, 0x4e, 0x3b, 0xb1, 0xcb, 0x3e, 0x42, 0x72, 0x62, 0xc8, 0xc0, 0x68, 0xd5,
        0x23, 0x19,
    ];
    assert_eq!(complete(b"abc".to_vec()).parent_head_data_hash(), BlockHash::new(expected));
}

#[test]
fn incomplete_candidate_answers_with_its_claims() {
    let candidate = incomplete();
    assert_eq!(candidate.candidate_hash(), CandidateHash(hash(5)));
    assert_eq!(candidate.candidate_para(), ParaId(3000));
    assert_eq!(candidate.parent_head_data_hash(), hash(6));
    assert_eq!(candidate.relay_parent(), hash(7));
}

#[test]
fn candidates_compare_by_content() {
    assert_eq!(complete(vec![9]), complete(vec![9]));
    assert_ne!(complete(vec![9]), complete(vec![8]));
    assert_ne!(complete(vec![9]), incomplete());
    assert_eq!(incomplete().clone(), incomplete());
}
