use rtps_core::common::bit_set::BitSetRef;
use rtps_core::messages::elements::SequenceNumberSet;
use rtps_core::messages::wire::Endianness;

fn sample_set() -> BitSetRef {
    let mut set = BitSetRef::new();
    set.insert(0);
    set.insert(42);
    set.insert(7);
    set
}

#[test]
fn bit_set_empty() {
    let set = BitSetRef::new();
    let mut le = Vec::new();
    set.write_to(&mut le, Endianness::LittleEndian);
    assert_eq!(vec![0x00, 0x00, 0x00, 0x00], le);
    let mut be = Vec::new();
    set.write_to(&mut be, Endianness::BigEndian);
    assert_eq!(vec![0x00, 0x00, 0x00, 0x00], be);
    let (back, end) = BitSetRef::read_from(&le, 0, Endianness::LittleEndian).unwrap();
    assert_eq!(4, end);
    assert!(back.is_empty());
}

#[test]
fn bit_set_non_zero_size() {
    let set = sample_set();
    let mut le = Vec::new();
    set.write_to(&mut le, Endianness::LittleEndian);
    assert_eq!(
        vec![0x40, 0x00, 0x00, 0x00, 0x81, 0x00, 0x00, 0x00, 0x00, 0x04, 0x00, 0x00],
        le
    );
    let mut be = Vec::new();
    set.write_to(&mut be, Endianness::BigEndian);
    assert_eq!(
        vec![0x00, 0x00, 0x00, 0x40, 0x00, 0x00, 0x00, 0x81, 0x00, 0x00, 0x04, 0x00],
        be
    );
}

#[test]
fn bit_set_reads_back_in_both_byte_orders() {
    let set = sample_set();
    for e in [Endianness::LittleEndian, Endianness::BigEndian] {
        let mut bytes = vec![0xAA, 0xBB];
        set.write_to(&mut bytes, e);
        bytes.push(0xCC);
        let (back, end) = BitSetRef::read_from(&bytes, 2, e).unwrap();
        assert_eq!(bytes.len() - 1, end);
        assert_eq!(vec![0, 7, 42], back.elements());
    }
}

#[test]
fn bit_set_read_needs_all_its_words() {
    let set = sample_set();
    let mut bytes = Vec::new();
    set.write_to(&mut bytes, Endianness::LittleEndian);
    bytes.pop();
    assert!(BitSetRef::read_from(&bytes, 0, Endianness::LittleEndian).is_none());
    assert!(BitSetRef::read_from(&[0x01, 0x00], 0, Endianness::LittleEndian).is_none());
}

#[test]
fn bit_set_insert_and_contains() {
    let mut set = BitSetRef::new();
    assert!(set.is_empty());
    assert!(set.insert(5));
    assert!(!set.insert(5));
    assert!(set.contains(5));
    assert!(!set.contains(4));
    assert!(!set.contains(1_000_000));
    assert!(!set.is_empty());
    assert_eq!(vec![5], set.elements());
    // There is no room for a number this large.
    assert!(!set.insert(usize::MAX));
    assert_eq!(vec![5], set.elements());
}

#[test]
fn sequence_number_set_from_bit_set() {
    let set = sample_set();
    let sns = SequenceNumberSet::from_bit_set(100, &set);
    assert_eq!(100, sns.base);
    assert_eq!(vec![100, 107, 142], sns.elements());
    assert!(sns.contains(107));
    assert!(!sns.contains(101));
    assert!(!sns.contains(99));
    let near_the_end = SequenceNumberSet::from_bit_set(i64::MAX - 3, &set);
    assert_eq!(vec![i64::MAX - 3], near_the_end.elements());
}

#[test]
fn sequence_number_set_insert_and_wire_form() {
    let mut sns = SequenceNumberSet::with_bits(10, 40);
    assert!(sns.is_empty());
    sns.insert(10);
    sns.insert(49);
    sns.insert(17);
    assert_eq!(vec![10, 17, 49], sns.elements());
    let mut bytes = Vec::new();
    sns.write_to(&mut bytes, Endianness::LittleEndian);
    assert_eq!(
        vec![
            0, 0, 0, 0, 10, 0, 0, 0, // base: high word, low word
            40, 0, 0, 0, // number of bits
            0x81, 0, 0, 0, // bits 0 and 7
            0x80, 0, 0, 0, // bit 39
        ],
        bytes
    );
    let (back, end) = SequenceNumberSet::read_from(&bytes, 0, Endianness::LittleEndian).unwrap();
    assert_eq!(20, end);
    assert_eq!(vec![10, 17, 49], back.elements());
    assert_eq!(40, back.num_bits);
}

#[test]
fn sequence_number_set_to_bit_set() {
    let mut sns = SequenceNumberSet::with_bits(10, 40);
    sns.insert(10);
    sns.insert(49);
    sns.insert(17);
    assert_eq!(vec![0, 7, 39], sns.to_bit_set().elements());
    assert!(SequenceNumberSet::new(5).to_bit_set().is_empty());
    let back = SequenceNumberSet::from_bit_set(10, &sns.to_bit_set());
    assert_eq!(sns.elements(), back.elements());
}
