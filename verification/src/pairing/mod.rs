//! Pairing framing: the pre-key bundle, the mailbox-update handoffs, the
//! pair-ack with its proof-of-scan, and the signed pairing offer.

pub mod bundle;
pub mod cursor;
pub mod handoff;
pub mod offer;
pub mod scan;

pub use bundle::{parse, serialize, BundleData, ABSENT_ID, FORMAT_VERSION};
pub use handoff::{
    encode_mailbox_update, encode_mailbox_update_v2, encode_mailbox_update_v3, encode_pair_ack_v2,
    parse_mailbox_update, parse_mailbox_update_v2, parse_mailbox_update_v3, parse_pair_ack_v2,
    PairAckV2, CONTROL_VERSION, MAILBOX_ID_LEN, MAILBOX_UPDATE_V2, MAILBOX_UPDATE_V3,
    PAIR_ACK_V2, RECOVERY_CONTRIB_LEN,
};
pub use offer::{
    finish_offer_v3, offer_v3_prefix, parse_offer_v3_structure, parse_pairing_offer_v3,
    peek_offer_relay, peek_offer_validity, split_offer_signature, OfferV3, OfferValidity,
    SignatureCheck, OFFER_SIG_LEN, OFFER_VERSION_V3,
};
pub use scan::{compute_proof_of_scan, verify_proof_of_scan, PAIRING_SECRET_LEN};
