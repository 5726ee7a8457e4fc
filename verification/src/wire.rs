use vstd::prelude::*;

verus! {

/// Declared so that the serializer's own tree type can appear in the
/// signatures of the codec's conversion helpers.
#[verifier::external_type_specification]
#[verifier::external_body]
pub struct ExRmpvValue(rmpv::Value);

/// Declared for the codec's integer conversion helper.
#[verifier::external_type_specification]
#[verifier::external_body]
pub struct ExRmpvInteger(rmpv::Integer);

/// Declared for the codec's text conversion helper.
#[verifier::external_type_specification]
#[verifier::external_body]
pub struct ExRmpvUtf8String(rmpv::Utf8String);

} // verus!
