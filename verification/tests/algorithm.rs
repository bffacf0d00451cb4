use jwt_crack::algorithm::{
    classify, select, AlgorithmKind, JoseAlgorithm, MacConstructor, SelectError,
};

#[test]
fn identifiers_are_the_registered_names() {
    assert_eq!(JoseAlgorithm::Hs256.identifier(), "HS256");
    assert_eq!(JoseAlgorithm::Hs384.identifier(), "HS384");
    assert_eq!(JoseAlgorithm::Hs512.identifier(), "HS512");
    assert_eq!(JoseAlgorithm::Rs256.identifier(), "RS256");
    assert_eq!(JoseAlgorithm::Rs384.identifier(), "RS384");
    assert_eq!(JoseAlgorithm::Rs512.identifier(), "RS512");
    assert_eq!(JoseAlgorithm::Es256.identifier(), "ES256");
    assert_eq!(JoseAlgorithm::Es384.identifier(), "ES384");
    assert_eq!(JoseAlgorithm::Es512.identifier(), "ES512");
    assert_eq!(JoseAlgorithm::Ps256.identifier(), "PS256");
    assert_eq!(JoseAlgorithm::Ps384.identifier(), "PS384");
    assert_eq!(JoseAlgorithm::Ps512.identifier(), "PS512");
    assert_eq!(JoseAlgorithm::Unsecured.identifier(), "none");
}

#[test]
fn classify_keeps_the_hmac_kinds() {
    assert!(matches!(classify(JoseAlgorithm::Hs256), AlgorithmKind::Hs256));
    assert!(matches!(classify(JoseAlgorithm::Hs384), AlgorithmKind::Hs384));
    assert!(matches!(classify(JoseAlgorithm::Hs512), AlgorithmKind::Hs512));
    assert!(matches!(classify(JoseAlgorithm::Unsecured), AlgorithmKind::NoSignature));
}

#[test]
fn classify_names_what_it_does_not_support() {
    let asymmetric = [
        (JoseAlgorithm::Rs256, "RS256"),
        (JoseAlgorithm::Rs384, "RS384"),
        (JoseAlgorithm::Rs512, "RS512"),
        (JoseAlgorithm::Es256, "ES256"),
        (JoseAlgorithm::Es384, "ES384"),
        (JoseAlgorithm::Es512, "ES512"),
        (JoseAlgorithm::Ps256, "PS256"),
        (JoseAlgorithm::Ps384, "PS384"),
        (JoseAlgorithm::Ps512, "PS512"),
    ];
    for (algorithm, expected) in asymmetric {
        match classify(algorithm) {
            AlgorithmKind::Unsupported(name) => assert_eq!(name, expected),
            other => panic!("unexpected kind {:?}", other),
        }
    }
}

#[test]
fn select_maps_each_hmac_kind_to_its_construction() {
    assert_eq!(select(AlgorithmKind::Hs256).unwrap(), MacConstructor::HmacSha256);
    assert_eq!(select(AlgorithmKind::Hs384).unwrap(), MacConstructor::HmacSha384);
    assert_eq!(select(AlgorithmKind::Hs512).unwrap(), MacConstructor::HmacSha512);
}

#[test]
fn select_succeeds_on_the_unsigned_kind() {
    assert_eq!(select(AlgorithmKind::NoSignature).unwrap(), MacConstructor::NoSignature);
}

#[test]
fn select_refuses_an_unsupported_kind_with_its_name() {
    match select(AlgorithmKind::Unsupported(String::from("RS256"))) {
        Err(SelectError::UnsupportedAlgorithm(name)) => assert_eq!(name, "RS256"),
        other => panic!("unexpected selection {:?}", other),
    }
    match select(classify(JoseAlgorithm::Ps512)) {
        Err(SelectError::UnsupportedAlgorithm(name)) => assert_eq!(name, "PS512"),
        other => panic!("unexpected selection {:?}", other),
    }
}

#[test]
fn kinds_compare_by_variant_and_name() {
    assert_eq!(classify(JoseAlgorithm::Hs512), AlgorithmKind::Hs512);
    assert_eq!(classify(JoseAlgorithm::Es256), AlgorithmKind::Unsupported(String::from("ES256")));
    assert_ne!(classify(JoseAlgorithm::Es256), AlgorithmKind::Unsupported(String::from("ES384")));
    assert_eq!(
        select(classify(JoseAlgorithm::Rs384)),
        Err(SelectError::UnsupportedAlgorithm(String::from("RS384")))
    );
}
