// A verified model of a minimal append-only link portal kept in a single
// fixed-size storage account: one operation creates the account with an
// empty list, one appends an entry tagged with the submitter's identity.
pub mod codec;
pub mod portal;
