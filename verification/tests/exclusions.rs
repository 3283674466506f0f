use c2pa_validate::exclusions::{
    bmff_exclusion_maps, parse_exclusions, parse_local_part_exclusions,
    validate_regular_exclusion_geometry, MAX_BMFF_EXCLUSION_DATA_BYTES,
    MAX_BMFF_EXCLUSION_DATA_QUALIFIERS, MAX_BMFF_EXCLUSION_SUBSETS,
};
use c2pa_validate::hash::{hash_bytes, hash_parts, hash_with_exclusions, HashAlgorithm};
use c2pa_validate::value::Value;

fn vmap(fields: Vec<(&str, Value)>) -> Value {
    Value::Dict(
        fields
            .into_iter()
            .map(|(key, value)| (Value::Text(key.to_string()), value))
            .collect(),
    )
}

fn text(s: &str) -> Value {
    Value::Text(s.to_string())
}

fn one_exclusion(fields: Vec<(&str, Value)>) -> Value {
    let mut all = vec![("xpath", text("/free"))];
    all.extend(fields);
    vmap(vec![("exclusions", Value::Array(vec![vmap(all)]))])
}

#[test]
fn bmff_exclusion_parser_treats_null_optionals_as_absent() {
    let hash_data = one_exclusion(vec![
        ("length", Value::Null),
        ("version", Value::Null),
        ("flags", Value::Null),
        ("exact", Value::Null),
        ("data", Value::Null),
        ("subset", Value::Null),
    ]);
    let exclusions = bmff_exclusion_maps(&hash_data).unwrap();
    assert_eq!(exclusions.len(), 1);
    let exclusion = &exclusions[0];
    assert_eq!(exclusion.xpath, "/free");
    assert_eq!(exclusion.length, None);
    assert_eq!(exclusion.version, None);
    assert_eq!(exclusion.flags, None);
    assert!(exclusion.exact);
    assert!(exclusion.data.is_empty());
    assert!(exclusion.subset.is_empty());
}

#[test]
fn bmff_exclusion_parser_rejects_wrong_non_null_optional_types() {
    for (field, value) in [
        ("length", Value::Bool(false)),
        ("version", text("zero")),
        ("flags", Value::Integer(0)),
        ("exact", Value::Integer(0)),
        ("data", text("none")),
        ("subset", text("none")),
    ] {
        assert!(bmff_exclusion_maps(&one_exclusion(vec![(field, value)])).is_err(), "{field}");
    }
}

#[test]
fn bmff_exclusion_parser_bounds_qualifier_entries_and_bytes() {
    let data_map =
        || vmap(vec![("offset", Value::Integer(0)), ("value", Value::Bytes(Vec::new()))]);
    let too_many = one_exclusion(vec![(
        "data",
        Value::Array((0..MAX_BMFF_EXCLUSION_DATA_QUALIFIERS + 1).map(|_| data_map()).collect()),
    )]);
    assert!(bmff_exclusion_maps(&too_many).is_err());

    let too_many_bytes = one_exclusion(vec![(
        "data",
        Value::Array(vec![vmap(vec![
            ("offset", Value::Integer(0)),
            ("value", Value::Bytes(vec![0; MAX_BMFF_EXCLUSION_DATA_BYTES + 1])),
        ])]),
    )]);
    assert!(bmff_exclusion_maps(&too_many_bytes).is_err());
}

fn subset(offset: i128, length: i128) -> Value {
    vmap(vec![("offset", Value::Integer(offset)), ("length", Value::Integer(length))])
}

#[test]
fn bmff_exclusion_parser_bounds_and_orders_subsets() {
    let too_many = one_exclusion(vec![(
        "subset",
        Value::Array((0..MAX_BMFF_EXCLUSION_SUBSETS + 1).map(|_| subset(0, 1)).collect()),
    )]);
    assert!(bmff_exclusion_maps(&too_many).is_err());

    let overlapping =
        one_exclusion(vec![("subset", Value::Array(vec![subset(4, 4), subset(7, 1)]))]);
    assert!(bmff_exclusion_maps(&overlapping).is_err());

    let overflowing_end =
        one_exclusion(vec![("subset", Value::Array(vec![subset(4, usize::MAX as i128)]))]);
    let exclusions = bmff_exclusion_maps(&overflowing_end).unwrap();
    assert_eq!(exclusions[0].subset[0].length, usize::MAX);
}

fn ranges(list: &[(i128, i128)]) -> Value {
    Value::Array(
        list.iter()
            .map(|&(s, l)| vmap(vec![("start", Value::Integer(s)), ("length", Value::Integer(l))]))
            .collect(),
    )
}

#[test]
fn data_hash_ranges_are_sorted_by_start() {
    assert_eq!(parse_exclusions(Some(&ranges(&[(9, 1), (2, 3)]))), vec![(2, 3), (9, 1)]);
    assert!(parse_exclusions(None).is_empty());
}

#[test]
fn part_ranges_lie_inside_their_part() {
    assert_eq!(parse_local_part_exclusions(Some(&ranges(&[(1, 2)])), 10), Ok(vec![(1, 2)]));
    assert!(parse_local_part_exclusions(Some(&ranges(&[(9, 2)])), 10).is_err());
    assert_eq!(
        parse_local_part_exclusions(Some(&ranges(&[(5, 1), (1, 2)])), 10),
        Ok(vec![(1, 2), (5, 1)])
    );
    assert!(parse_local_part_exclusions(Some(&text("none")), 10).is_err());
}

#[test]
fn regular_exclusions_stay_inside_the_carrier() {
    assert!(validate_regular_exclusion_geometry(&vec![(10, 5)], 10, 5).is_ok());
    assert!(validate_regular_exclusion_geometry(&vec![(10, 6)], 10, 5).is_err());
    assert!(validate_regular_exclusion_geometry(&vec![(9, 1)], 10, 5).is_err());
    assert!(validate_regular_exclusion_geometry(&vec![(10, 2), (11, 2)], 10, 5).is_err());
}

#[test]
fn excluded_bytes_do_not_count() {
    let data = b"0123456789";
    let whole = hash_with_exclusions("sha256", data, &[]).unwrap();
    assert_eq!(whole, hash_bytes("sha256", data).unwrap());
    let outside = hash_with_exclusions("sha256", data, &[(2, 3), (8, 9)]).unwrap();
    assert_eq!(outside, hash_bytes("sha256", b"01567").unwrap());
    assert_eq!(hash_with_exclusions("md5", data, &[]), None);
}

#[test]
fn digests_match_known_vectors() {
    let hex = |d: Vec<u8>| hex::encode(d);
    assert_eq!(
        hex(hash_bytes("sha256", b"abc").unwrap()),
        "ba7816bf8f01cfea414140de5dae2223b00361a396177a9cb410ff61f20015ad"
    );
    assert_eq!(
        hex(hash_bytes("sha384", b"abc").unwrap()),
        "cb00753f45a35e8bb5a03d699ac65007272c32ab0eded1631a8b605a43ff5bed8086072ba1e7cc2358baeca134c825a7"
    );
    assert_eq!(
        hex(hash_bytes("sha512", b"abc").unwrap()),
        "ddaf35a193617abacc417349ae20413112e6fa4e89a97ea20a9eeee64b55d39a2192992a274fc1a836ba3c23a3feebbd454d4423643ce80e2a9ac94fa54ca49f"
    );
    assert_eq!(hash_bytes("md5", b"abc"), None);
    assert_eq!(hash_parts("sha256", &[b"a", b"bc"]), hash_bytes("sha256", b"abc"));
    assert_eq!(HashAlgorithm::Sha384.digest_len(), 48);
}
