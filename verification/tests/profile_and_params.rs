use moq_mmtp::params::{
    retained_catalog_capabilities, ParameterType, CATALOG_SUBSCRIPTION_CAPABILITIES,
};
use moq_mmtp::profile::WireProfile;
use web_transport_quinn::proto::VarInt;

#[test]
fn blockcast_profile_has_distinct_exact_negotiation_name() {
    assert_eq!(WireProfile::Blockcast01.name(), "moqt-blockcast-01");
    assert_eq!(
        WireProfile::from_name("moqt-blockcast-01"),
        Some(WireProfile::Blockcast01)
    );
    assert_eq!(
        WireProfile::from_alpn(b"moqt-blockcast-01"),
        Some(WireProfile::Blockcast01)
    );
    assert_eq!(WireProfile::from_name("moqt-blockcast"), None);
    assert_eq!(WireProfile::from_name("moqt-blockcast-01-preview"), None);
}

#[test]
fn every_profile_is_found_by_its_name_and_alpn() {
    assert_eq!(WireProfile::default(), WireProfile::Draft16);
    for profile in WireProfile::all() {
        assert_eq!(WireProfile::from_name(profile.name()), Some(profile));
        assert_eq!(WireProfile::from_alpn(profile.alpn()), Some(profile));
        assert_eq!(profile.alpn(), profile.name().as_bytes());
    }
    assert_eq!(WireProfile::Draft16.name(), "moqt-16");
    assert_eq!(WireProfile::Draft19.name(), "moqt-19");
}

#[test]
fn catalog_capabilities_key_is_odd() {
    assert_eq!(CATALOG_SUBSCRIPTION_CAPABILITIES % 2, 1);
}

#[test]
fn retained_catalog_capabilities_is_canonical() {
    let declaration = retained_catalog_capabilities();
    let mut cursor = &declaration[..];
    let mut fields = Vec::new();
    while !cursor.is_empty() {
        let field = VarInt::decode(&mut cursor).expect("varint decodes");
        fields.push(u64::from(field));
    }

    assert_eq!(fields, vec![1, 1, 2, 0x02, 0x03]);
    assert!(cursor.is_empty(), "declaration has trailing bytes");

    // Encoding the fields again must reproduce the declaration byte for byte,
    // so that no field is overlong.
    let mut round_trip = Vec::new();
    for field in &fields {
        VarInt::from_u64(*field)
            .expect("varint encodes")
            .encode(&mut round_trip);
    }
    assert_eq!(round_trip, declaration);
}

#[test]
fn parameters_have_their_numbers() {
    assert_eq!(u64::from(ParameterType::MOQTImplementation), 0x7);
    assert_eq!(ParameterType::MaxRequestId.code(), 0x2);
}
