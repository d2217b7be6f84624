use device_tree::map::SortedMap;
use device_tree::memory_reservation::MemoryReservations;
use device_tree::node::cache::{Description, L1};
use device_tree::node::device::decode_reg;
use device_tree::node::reserved_memory::{sort_by_start, Compatible};
use device_tree::node_name::{split_at_first, split_path, Char, NameRef, NameRefError, NameSlice};
use device_tree::parse::{TryFromError, U32ByteSlice, Warning};
use device_tree::property::{ChassisError, ChassisType, EnableMethod, EnableMethodError, Model, Status, StatusError};
use device_tree::header::{Header, HeaderError};

fn slice(b: &[u8]) -> U32ByteSlice {
    U32ByteSlice::from_bytes(b)
}

fn props(entries: &[(&str, &[u8])]) -> SortedMap<Vec<u8>, U32ByteSlice> {
    let mut m = SortedMap::new();
    for (k, v) in entries {
        m.insert(k.as_bytes().to_vec(), slice(v));
    }
    m
}

#[test]
fn reg_with_two_address_cells_and_one_size_cell() {
    let bytes = [0x00, 0x00, 0x00, 0x00, 0x10, 0x00, 0x00, 0x00, 0x00, 0x00, 0x10, 0x00];
    let mut warnings = Vec::new();
    let reg = decode_reg(slice(&bytes), 2, 1, &mut warnings).unwrap();
    assert_eq!(reg, vec![(0x1000_0000u64, 0x1000u64)]);
    assert!(warnings.is_empty());
}

#[test]
fn reg_of_wrong_length_fails() {
    let mut warnings = Vec::new();
    assert!(decode_reg(slice(&[0, 0, 0, 1, 0, 0, 0, 2]), 2, 1, &mut warnings).is_none());
    assert!(decode_reg(slice(&[0, 0, 0, 1, 0]), 1, 0, &mut warnings).is_none());
    assert_eq!(decode_reg(slice(&[]), 2, 1, &mut warnings), Some(vec![]));
}

#[test]
fn cells_slice_with_three_fields() {
    let bytes = [0, 0, 0, 1, 0, 0, 0, 2, 0, 0, 0, 3, 0, 0, 0, 4];
    let mut warnings = Vec::new();
    let out = slice(&bytes).into_cells_slice(&[1, 2, 1], &mut warnings).unwrap();
    assert_eq!(out, vec![vec![1u64, 0x2_0000_0003, 4]]);
    assert!(slice(&bytes).into_cells_slice(&[1, 1, 1], &mut warnings).is_none());
    assert_eq!(slice(&[]).into_cells_slice(&[0, 0], &mut warnings), Some(vec![]));
    assert!(slice(&bytes).into_cells_slice(&[0, 0], &mut warnings).is_none());
}

#[test]
fn consume_cells_widths() {
    let bytes = [0x12, 0x34, 0x56, 0x78, 0x9a, 0xbc, 0xde, 0xf0, 0, 0, 0, 0];
    let mut warnings = Vec::new();
    let mut s = slice(&bytes);
    assert_eq!(s.consume_cells(0, &mut warnings), Some(0));
    assert_eq!(s.consume_cells(1, &mut warnings), Some(0x1234_5678));
    assert_eq!(s.consume_cells(2, &mut warnings), Some(0x9abc_def0_0000_0000));
    assert!(s.is_empty());
    assert!(warnings.is_empty());
    let mut s = slice(&bytes);
    assert_eq!(s.consume_cells(3, &mut warnings), Some(0x1234_5678_9abc_def0));
    assert!(warnings.is_empty());
    let mut s = slice(&bytes);
    assert_eq!(s.consume_cells(4, &mut warnings), None);
    assert_eq!(s.len_bytes(), 12);
}

#[test]
fn discarded_nonzero_cell_warns() {
    let bytes = [0, 0, 0, 1, 0, 0, 0, 2, 0, 0, 0, 3];
    let mut warnings = Vec::new();
    let mut s = slice(&bytes);
    assert_eq!(s.consume_cells(3, &mut warnings), Some(0x1_0000_0002));
    assert_eq!(warnings, vec![Warning::DiscardedCells]);
}

#[test]
fn into_cells_needs_exact_length() {
    let mut warnings = Vec::new();
    assert_eq!(slice(&[0, 0, 1, 0]).into_cells(1, &mut warnings), Some(0x100));
    assert_eq!(slice(&[0, 0, 1, 0, 0, 0, 0, 0]).into_cells(1, &mut warnings), None);
}

#[test]
fn integers_from_slices() {
    assert_eq!(slice(&[0, 0, 0, 7]).try_into_u32(), Ok(7));
    assert_eq!(slice(&[]).try_into_u32(), Err(TryFromError::Empty));
    assert_eq!(slice(&[0, 0]).try_into_u32(), Err(TryFromError::Excess));
    assert_eq!(slice(&[0, 0, 0, 7, 0]).try_into_u32(), Err(TryFromError::Excess));
    assert_eq!(slice(&[0, 0, 0, 1, 0, 0, 0, 2]).try_into_u64(), Ok(0x1_0000_0002));
}

#[test]
fn new_checks_padding() {
    assert!(U32ByteSlice::new(&[1, 2, 3, 0], 3).is_some());
    assert!(U32ByteSlice::new(&[1, 2, 3, 4], 3).is_none());
    assert!(U32ByteSlice::new(&[1, 2, 3, 0, 0, 0, 0, 0], 3).is_none());
    assert_eq!(U32ByteSlice::new(&[1, 2, 3, 0], 3).unwrap().len_bytes(), 3);
    assert_eq!(U32ByteSlice::new(&[1, 2, 3, 0], 3).unwrap().len_u32s(), 1);
}

#[test]
fn take_skips_padding() {
    let mut s = slice(&[1, 2, 3, 0, 5, 6, 7, 8]);
    let t = s.take(3).unwrap();
    assert_eq!(t.to_vec(), vec![1, 2, 3]);
    assert_eq!(s.to_vec(), vec![5, 6, 7, 8]);
    assert!(s.take(5).is_none());
}

#[test]
fn c_strings_and_padding() {
    let mut s = slice(&[b'a', b'b', 0, 0, 9, 9, 9, 9]);
    assert_eq!(s.consume_c_str(), Some(b"ab".to_vec()));
    assert_eq!(s.len_bytes(), 4);
    let mut bad = slice(&[b'a', 0, 1, 0]);
    assert_eq!(bad.consume_c_str(), None);
    assert_eq!(bad.len_bytes(), 4);
    let mut none = slice(&[b'a', b'b']);
    assert_eq!(none.consume_c_str(), None);
}

#[test]
fn property_maps_ignore_insertion_order() {
    let mut first: SortedMap<Vec<u8>, u32> = SortedMap::new();
    first.insert(b"b".to_vec(), 1);
    first.insert(b"a".to_vec(), 2);
    let mut second: SortedMap<Vec<u8>, u32> = SortedMap::new();
    second.insert(b"a".to_vec(), 2);
    second.insert(b"b".to_vec(), 1);
    assert_eq!(first.iter(), second.iter());
    assert_eq!(first.iter()[0].0, b"a".to_vec());
    assert_eq!(first.get(&b"b".to_vec()), Some(&1));
    assert_eq!(second.get(&b"b".to_vec()), Some(&1));
    assert_eq!(first.get(&b"c".to_vec()), None);
}

#[test]
fn map_insert_remove_and_extract() {
    let mut m: SortedMap<u32, &str> = SortedMap::new();
    assert!(m.is_empty());
    assert_eq!(m.insert(3, "c"), None);
    assert_eq!(m.insert(1, "a"), None);
    assert_eq!(m.insert(3, "C"), Some("c"));
    assert_eq!(m.insert(2, "b"), None);
    assert_eq!(m.len(), 3);
    assert_eq!(m.remove(&1), Some("a"));
    assert_eq!(m.remove(&1), None);
    let taken = m.extract_if(|k: &u32, _v: &&str| *k == 3);
    assert_eq!(taken, vec![(3u32, "C")]);
    assert_eq!(m.iter(), &[(2u32, "b")][..]);
}

#[test]
fn extend_preserve_keeps_existing() {
    let mut own = props(&[("a", &[1]), ("b", &[2])]);
    let base = props(&[("b", &[9]), ("c", &[3])]);
    own.extend_preserve(&base);
    assert_eq!(own.len(), 3);
    assert_eq!(own.get(&b"b".to_vec()).unwrap().to_vec(), vec![2]);
    assert_eq!(own.get(&b"c".to_vec()).unwrap().to_vec(), vec![3]);
}

#[test]
fn status_values() {
    assert!(matches!(Status::try_from(&slice(b"okay\0")), Ok(Status::Okay)));
    assert!(matches!(Status::try_from(&slice(b"disabled\0")), Ok(Status::Disabled)));
    assert!(matches!(Status::try_from(&slice(b"reserved\0")), Ok(Status::Reserved)));
    assert!(matches!(Status::try_from(&slice(b"fail\0")), Ok(Status::Fail(None))));
    match Status::try_from(&slice(b"fail-sss\0")) {
        Ok(Status::Fail(Some(c))) => assert_eq!(c, b"sss".to_vec()),
        _ => panic!("expected a fail code"),
    }
    assert!(matches!(Status::try_from(&slice(b"failx\0")), Err(StatusError::InvalidValue)));
    assert!(matches!(Status::try_from(&slice(b"ok\0")), Err(StatusError::InvalidValue)));
    assert!(matches!(Status::try_from(&slice(b"okay")), Err(StatusError::NotCStr)));
}

#[test]
fn models_and_compatible_lists() {
    match Model::from_c_str(b"fsl,mpc8349") {
        Model::ManufacturerModel(m, n) => {
            assert_eq!(m, b"fsl".to_vec());
            assert_eq!(n, b"mpc8349".to_vec());
        }
        Model::Other(_) => panic!("expected manufacturer and model"),
    }
    assert!(matches!(Model::from_c_str(b"ns16550"), Model::Other(_)));
    let list = Model::list_from(&slice(b"fsl,mpc8641\0\0ns16550\0")).unwrap();
    assert_eq!(list.len(), 2);
    assert!(matches!(&list[1], Model::Other(v) if v == b"ns16550"));
    assert!(Model::list_from(&slice(b"abc")).is_none());
}

#[test]
fn enable_methods() {
    let mut p = props(&[("enable-method", b"spin-table\0"), ("cpu-release-addr", &[0, 0, 0, 0, 0, 0, 1, 0])]);
    assert!(matches!(EnableMethod::extract_from_properties(&mut p), Ok(EnableMethod::SpinTable(0x100))));
    assert!(p.is_empty());
    let mut p = props(&[("enable-method", b"spin-table\0")]);
    assert!(matches!(EnableMethod::extract_from_properties(&mut p), Err(EnableMethodError::NoReleaseAddr)));
    let mut p = props(&[("enable-method", b"acme,psci\0")]);
    match EnableMethod::extract_from_properties(&mut p) {
        Ok(EnableMethod::VendorSpecific(v, m)) => {
            assert_eq!(v, b"acme".to_vec());
            assert_eq!(m, b"psci".to_vec());
        }
        _ => panic!("expected a vendor method"),
    }
    let mut p = props(&[("enable-method", b"a,b,c\0")]);
    assert!(matches!(EnableMethod::extract_from_properties(&mut p), Err(EnableMethodError::Invalid)));
    let mut p = props(&[]);
    assert!(matches!(EnableMethod::extract_from_properties(&mut p), Err(EnableMethodError::NotPresent)));
}

#[test]
fn chassis_types() {
    assert_eq!(ChassisType::try_from(&slice(b"laptop\0")), Ok(ChassisType::Laptop));
    assert_eq!(ChassisType::try_from(&slice(b"embedded\0")), Ok(ChassisType::Embedded));
    assert_eq!(ChassisType::try_from(&slice(b"toaster\0")), Err(ChassisError::Invalid));
    assert_eq!(ChassisType::try_from(&slice(b"laptop")), Err(ChassisError::CStr));
}

#[test]
fn node_names() {
    assert_eq!(NameRef::try_from(b"a_very_long_node_name_of_32_chars").err(), Some(NameRefError::TooLong));
    assert_eq!(NameRef::try_from(b"bad name").err(), Some(NameRefError::InvalidCharacters));
    assert_eq!(NameRef::try_from(b"uart@xyz").err(), Some(NameRefError::InvalidCharacters));
    assert_eq!(NameRef::try_from(b"uart@").err(), Some(NameRefError::InvalidCharacters));
    assert_eq!(NameRef::try_from(b"uart@10000000000000000").err(), Some(NameRefError::InvalidCharacters));
    assert_eq!(NameRef::try_from(b"uart@ffffffffffffffff").unwrap().unit_address(), Some(u64::MAX));
    assert!(Char::is_valid(b'+'));
    assert!(!Char::is_valid(b'/'));
    assert_eq!(Char::new(b'x').unwrap().as_byte(), b'x');
    assert!(NameSlice::try_from_bytes(b"cpu@0").is_none());
    assert!(NameSlice::try_from_bytes(b"cpu0").unwrap().starts_with(b"cpu"));
}

#[test]
fn splitting() {
    assert_eq!(split_at_first(b"a,b,c", b','), Some((&b"a"[..], &b"b,c"[..])));
    assert_eq!(split_at_first(b"abc", b','), None);
    assert_eq!(split_path(b"//a/b//c/"), vec![b"a".to_vec(), b"b".to_vec(), b"c".to_vec()]);
    assert!(split_path(b"///").is_empty());
}

#[test]
fn cache_descriptions() {
    let mut p = props(&[("cache-size", &[0, 0, 0x80, 0]), ("cache-sets", &[0, 0, 0, 0]), ("cache-unified", &[])]);
    match L1::extract_from(&mut p) {
        L1::Unified(d) => {
            assert_eq!(d.size(), Some(0x8000));
            assert_eq!(d.sets(), None);
            assert_eq!(d.block_size(), None);
            assert_eq!(d.line_size(), None);
        }
        L1::Harvard(_) => panic!("expected a unified cache"),
    }
    let mut p = props(&[("i-cache-size", &[0, 0, 0, 4]), ("d-cache-line-size", &[0, 0, 0, 64])]);
    match L1::extract_from(&mut p) {
        L1::Harvard(h) => {
            assert_eq!(h.icache().size(), Some(4));
            assert_eq!(h.dcache().line_size(), Some(64));
        }
        L1::Unified(_) => panic!("expected separate caches"),
    }
    let mut p = props(&[("x-size", &[0, 0, 0, 1])]);
    let d = Description::from_prefix(&mut p, b"x-size".to_vec(), b"x-sets".to_vec(), b"x-block".to_vec(), b"x-line".to_vec());
    assert_eq!(d.size(), Some(1));
}

#[test]
fn reserved_memory_compatible() {
    assert!(matches!(Compatible::try_from(b"shared-dma-pool"), Ok(Compatible::SharedDmaPool)));
    match Compatible::try_from(b"acme,gpu-carveout") {
        Ok(Compatible::VendorSpecific(v, Some(d), u)) => {
            assert_eq!(v, b"acme".to_vec());
            assert_eq!(d, b"gpu".to_vec());
            assert_eq!(u, b"carveout".to_vec());
        }
        _ => panic!("expected vendor, device and usage"),
    }
    assert!(matches!(Compatible::try_from(b"acme,pool"), Ok(Compatible::VendorSpecific(_, None, _))));
    assert!(Compatible::try_from(b"pool").is_err());
}

#[test]
fn sorting_by_start() {
    assert_eq!(sort_by_start(vec![(5, 1), (1, 2), (3, 3)]), vec![(1, 2), (3, 3), (5, 1)]);
}

#[test]
fn memory_reservations_block() {
    let mut b = Vec::new();
    for v in [0x2000u64, 0x10, 0x1000, 0x20, 0, 0] {
        b.extend_from_slice(&v.to_be_bytes());
    }
    let m = MemoryReservations::try_from(&b).unwrap();
    assert_eq!(m.0, vec![(0x1000, 0x20), (0x2000, 0x10)]);
    assert!(MemoryReservations::try_from(&b[32..48]).unwrap().0.is_empty());
    assert!(MemoryReservations::try_from(&b[..32]).is_err());
    assert!(MemoryReservations::try_from(&b[..20]).is_err());
}

#[test]
fn header_errors() {
    let mut h = vec![0u8; 40];
    h[0..4].copy_from_slice(&0xD00D_FEEDu32.to_be_bytes());
    h[4..8].copy_from_slice(&40u32.to_be_bytes());
    assert!(Header::parse(&h).is_ok());
    let mut big = h.clone();
    big[4..8].copy_from_slice(&41u32.to_be_bytes());
    assert_eq!(Header::parse(&big), Err(HeaderError::EoF));
    let mut strings = h.clone();
    strings[12..16].copy_from_slice(&36u32.to_be_bytes());
    strings[32..36].copy_from_slice(&8u32.to_be_bytes());
    assert_eq!(Header::parse(&strings), Err(HeaderError::StringsIndex(36, 8)));
    let mut structure = h.clone();
    structure[8..12].copy_from_slice(&36u32.to_be_bytes());
    structure[36..40].copy_from_slice(&8u32.to_be_bytes());
    assert_eq!(Header::parse(&structure), Err(HeaderError::StructIndex(36, 8)));
}
