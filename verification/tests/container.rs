use dataset_tools::container::{Container, TensorDescriptor};
use dataset_tools::dtype::Dtype;
use dataset_tools::error::{FormatError, WriteError};
use dataset_tools::header::{RawEntry, RawHeader};
use dataset_tools::layout::span_fits;
use dataset_tools::order::{entry_precedes, sort_entries};
use dataset_tools::reader::read_container;
use dataset_tools::writer::{packed_table, seal, write_container};

fn file_bytes(header: &str, data: &[u8]) -> Vec<u8> {
    let mut bytes = (header.len() as u64).to_le_bytes().to_vec();
    bytes.extend_from_slice(header.as_bytes());
    bytes.extend_from_slice(data);
    bytes
}

fn floats(values: &[f32]) -> Vec<u8> {
    let mut bytes = Vec::new();
    for v in values {
        bytes.extend_from_slice(&v.to_le_bytes());
    }
    bytes
}

fn entry(name: &str, dtype: &str, shape: Vec<usize>, start: usize, end: usize) -> RawEntry {
    RawEntry { name: name.to_string(), dtype: dtype.to_string(), shape, start, end }
}

fn two_tensor_file() -> Vec<u8> {
    let header = "{\"__metadata__\":{\"format\":\"pt\",\"rank\":\"4\"},\
        \"b\":{\"dtype\":\"U8\",\"shape\":[3],\"data_offsets\":[8,11]},\
        \"a\":{\"dtype\":\"F32\",\"shape\":[2],\"data_offsets\":[0,8]}}";
    let mut data = floats(&[1.5, -2.0]);
    data.extend_from_slice(&[7, 8, 9]);
    file_bytes(header, &data)
}

#[test]
fn reads_table_in_offset_order() {
    let bytes = two_tensor_file();
    let c = read_container(&bytes).unwrap();
    assert_eq!(c.tensor_count(), 2);
    assert_eq!(
        c.descriptor(0),
        &TensorDescriptor {
            name: "a".to_string(),
            dtype: Dtype::F32,
            shape: vec![2],
            start: 0,
            end: 8,
        }
    );
    assert_eq!(c.descriptor(1).name, "b");
    assert_eq!(c.descriptor(1).dtype, Dtype::U8);
    assert_eq!(c.descriptor(1).shape, vec![3]);
    assert_eq!((c.descriptor(1).start, c.descriptor(1).end), (8, 11));
    assert_eq!(c.payload(0), &floats(&[1.5, -2.0])[..]);
    assert_eq!(c.payload(1), &[7u8, 8, 9][..]);
    assert_eq!(c.data().len(), 11);
}

#[test]
fn reads_metadata_pairs() {
    let bytes = two_tensor_file();
    let c = read_container(&bytes).unwrap();
    let mut pairs = c.metadata().clone().unwrap();
    pairs.sort();
    assert_eq!(
        pairs,
        vec![
            ("format".to_string(), "pt".to_string()),
            ("rank".to_string(), "4".to_string()),
        ]
    );
}

#[test]
fn header_without_metadata_has_none() {
    let header = "{\"a\":{\"dtype\":\"I16\",\"shape\":[1,2],\"data_offsets\":[0,4]}}";
    let bytes = file_bytes(header, &[1, 2, 3, 4]);
    let c = read_container(&bytes).unwrap();
    assert!(c.metadata().is_none());
    assert_eq!(c.descriptor(0).dtype, Dtype::I16);
    assert_eq!(c.descriptor(0).shape, vec![1, 2]);
}

#[test]
fn find_gives_position_by_name() {
    let bytes = two_tensor_file();
    let c = read_container(&bytes).unwrap();
    assert_eq!(c.find("a"), Some(0));
    assert_eq!(c.find("b"), Some(1));
    assert_eq!(c.find("A"), None);
    assert_eq!(c.find(""), None);
}

#[test]
fn source_shorter_than_prefix_is_rejected() {
    assert_eq!(read_container(&[]).err(), Some(FormatError::TooShort));
    assert_eq!(read_container(&[2, 0, 0, 0, 0, 0, 0]).err(), Some(FormatError::TooShort));
}

#[test]
fn header_length_beyond_source_is_rejected() {
    let mut bytes = 3u64.to_le_bytes().to_vec();
    bytes.extend_from_slice(b"{}");
    assert_eq!(read_container(&bytes).err(), Some(FormatError::HeaderLength));
    let huge = u64::MAX.to_le_bytes().to_vec();
    assert_eq!(read_container(&huge).err(), Some(FormatError::HeaderLength));
}

#[test]
fn header_that_is_not_json_is_rejected() {
    let bytes = file_bytes("{\"a\":", &[]);
    assert_eq!(read_container(&bytes).err(), Some(FormatError::MalformedHeader));
    let bytes = file_bytes("[1,2]", &[]);
    assert_eq!(read_container(&bytes).err(), Some(FormatError::MalformedHeader));
}

#[test]
fn unknown_dtype_token_in_file_is_rejected() {
    let header = "{\"a\":{\"dtype\":\"F128\",\"shape\":[1],\"data_offsets\":[0,16]}}";
    let bytes = file_bytes(header, &[0; 16]);
    assert!(read_container(&bytes).is_err());
}

#[test]
fn empty_header_is_an_empty_container() {
    let bytes = file_bytes("{}", &[]);
    let c = read_container(&bytes).unwrap();
    assert_eq!(c.tensor_count(), 0);
    assert!(c.metadata().is_none());
}

#[test]
fn span_beyond_data_region_is_rejected() {
    let header = "{\"a\":{\"dtype\":\"F32\",\"shape\":[4],\"data_offsets\":[0,16]}}";
    let bytes = file_bytes(header, &[0; 12]);
    assert_eq!(
        read_container(&bytes).err(),
        Some(FormatError::SpanOutOfRange { tensor: "a".to_string() })
    );
}

#[test]
fn assemble_rejects_unknown_dtype() {
    let raw = RawHeader { tensors: vec![entry("w", "FLOAT", vec![1], 0, 4)], metadata: None };
    assert_eq!(
        Container::assemble(raw, &[0; 4]).err(),
        Some(FormatError::UnknownDtype { tensor: "w".to_string() })
    );
}

#[test]
fn assemble_rejects_reversed_span() {
    let raw = RawHeader { tensors: vec![entry("w", "U8", vec![0], 3, 2)], metadata: None };
    assert_eq!(
        Container::assemble(raw, &[0; 4]).err(),
        Some(FormatError::SpanOutOfRange { tensor: "w".to_string() })
    );
}

#[test]
fn assemble_rejects_span_that_does_not_fit_shape() {
    let raw = RawHeader { tensors: vec![entry("w", "F32", vec![2, 3], 0, 20)], metadata: None };
    assert_eq!(
        Container::assemble(raw, &[0; 24]).err(),
        Some(FormatError::ShapeMismatch { tensor: "w".to_string() })
    );
}

#[test]
fn assemble_rejects_second_use_of_a_name() {
    let raw = RawHeader {
        tensors: vec![entry("a", "U8", vec![2], 0, 2), entry("a", "U8", vec![2], 2, 4)],
        metadata: None,
    };
    assert_eq!(
        Container::assemble(raw, &[0; 4]).err(),
        Some(FormatError::DuplicateName { tensor: "a".to_string() })
    );
}

#[test]
fn assemble_reports_first_faulty_entry() {
    let raw = RawHeader {
        tensors: vec![
            entry("ok", "U8", vec![2], 0, 2),
            entry("short", "I32", vec![2], 2, 6),
            entry("odd", "NOPE", vec![1], 6, 7),
        ],
        metadata: None,
    };
    assert_eq!(
        Container::assemble(raw, &[0; 16]).err(),
        Some(FormatError::ShapeMismatch { tensor: "short".to_string() })
    );
}

#[test]
fn scalar_and_empty_shapes() {
    assert!(span_fits(Dtype::F64, &vec![], 8));
    assert!(!span_fits(Dtype::F64, &vec![], 0));
    assert!(span_fits(Dtype::F32, &vec![5, 0, 7], 0));
    assert!(!span_fits(Dtype::F32, &vec![5, 0, 7], 4));
    assert!(span_fits(Dtype::F4, &vec![3, 2], 3));
    assert!(!span_fits(Dtype::F4, &vec![3], 1));
    assert!(span_fits(Dtype::F6E2M3, &vec![4], 3));
    assert!(span_fits(Dtype::Bf16, &vec![2, 3, 4], 48));
    assert!(!span_fits(Dtype::U64, &vec![usize::MAX, usize::MAX, usize::MAX], 8));
    assert!(!span_fits(Dtype::U8, &vec![usize::MAX, 2], usize::MAX));
    assert!(span_fits(Dtype::U8, &vec![usize::MAX, usize::MAX, 0], 0));
}

#[test]
fn dtype_tokens_and_widths() {
    assert_eq!(Dtype::from_token("F32"), Some(Dtype::F32));
    assert_eq!(Dtype::from_token("BF16"), Some(Dtype::Bf16));
    assert_eq!(Dtype::from_token("F8_E4M3FNUZ"), Some(Dtype::F8E4M3Fnuz));
    assert_eq!(Dtype::from_token("f32"), None);
    assert_eq!(Dtype::from_token(""), None);
    assert_eq!(Dtype::F32.token(), "F32");
    assert_eq!(Dtype::F6E3M2.token(), "F6_E3M2");
    assert_eq!(Dtype::F32.bit_width(), 32);
    assert_eq!(Dtype::F4.bit_width(), 4);
    assert_eq!(Dtype::C64.bit_width(), 64);
    assert!(Dtype::F32.is_f32());
    assert!(!Dtype::F16.is_f32());
    assert!(!Dtype::I32.is_f32());
}

#[test]
fn writing_unchanged_reads_back_the_same() {
    let bytes = two_tensor_file();
    let c = read_container(&bytes).unwrap();
    let out = write_container(&c, &vec![None, None]).unwrap();
    let back = read_container(&out).unwrap();
    assert_eq!(back.tensor_count(), 2);
    for i in 0..2 {
        assert_eq!(back.descriptor(i), c.descriptor(i));
        assert_eq!(back.payload(i), c.payload(i));
    }
    let mut a = c.metadata().clone().unwrap();
    let mut b = back.metadata().clone().unwrap();
    a.sort();
    b.sort();
    assert_eq!(a, b);
}

#[test]
fn written_file_has_prefix_header_and_payloads() {
    let bytes = two_tensor_file();
    let c = read_container(&bytes).unwrap();
    let out = write_container(&c, &vec![None, Some(vec![1, 2, 3])]).unwrap();
    let declared = u64::from_le_bytes([
        out[0], out[1], out[2], out[3], out[4], out[5], out[6], out[7],
    ]) as usize;
    assert_eq!(out.len(), 8 + declared + 11);
    assert_eq!(out[8], b'{');
    let mut data = floats(&[1.5, -2.0]);
    data.extend_from_slice(&[1, 2, 3]);
    assert_eq!(&out[8 + declared..], &data[..]);
}

#[test]
fn writing_wants_one_place_per_tensor() {
    let bytes = two_tensor_file();
    let c = read_container(&bytes).unwrap();
    assert_eq!(write_container(&c, &vec![None]).err(), Some(WriteError::ReplacementCount));
    assert_eq!(
        write_container(&c, &vec![None, None, None]).err(),
        Some(WriteError::ReplacementCount)
    );
}

#[test]
fn writing_rejects_replacement_of_other_length() {
    let bytes = two_tensor_file();
    let c = read_container(&bytes).unwrap();
    assert_eq!(
        write_container(&c, &vec![None, Some(vec![1, 2])]).err(),
        Some(WriteError::ReplacementLength { index: 1 })
    );
    assert_eq!(
        write_container(&c, &vec![Some(vec![0; 9]), Some(vec![1, 2])]).err(),
        Some(WriteError::ReplacementLength { index: 0 })
    );
}

#[test]
fn writing_an_empty_container() {
    let bytes = file_bytes("{}", &[]);
    let c = read_container(&bytes).unwrap();
    let out = write_container(&c, &vec![]).unwrap();
    let back = read_container(&out).unwrap();
    assert_eq!(back.tensor_count(), 0);
    assert_eq!(back.data().len(), 0);
}

#[test]
fn sealing_frames_a_header_that_fits() {
    let bytes = two_tensor_file();
    let c = read_container(&bytes).unwrap();
    let text = "  {\"b\":{\"dtype\":\"U8\",\"shape\":[3],\"data_offsets\":[8,11]},\
        \"__metadata__\":{\"rank\":\"4\",\"format\":\"pt\"},\
        \"a\":{\"dtype\":\"F32\",\"shape\":[2],\"data_offsets\":[0,8]}} ";
    let out = seal(&c, &vec![Some(vec![9; 8]), None], text.as_bytes()).unwrap();
    let mut expected = (text.len() as u64).to_le_bytes().to_vec();
    expected.extend_from_slice(text.as_bytes());
    expected.extend_from_slice(&[9; 8]);
    expected.extend_from_slice(&[7, 8, 9]);
    assert_eq!(out, expected);
    let back = read_container(&out).unwrap();
    assert_eq!(back.payload(0), &[9u8; 8][..]);
    assert_eq!(back.payload(1), &[7u8, 8, 9][..]);
}

#[test]
fn sealing_rejects_a_header_that_says_otherwise() {
    let bytes = two_tensor_file();
    let c = read_container(&bytes).unwrap();
    let edits = vec![None, None];
    let renamed = "{\"__metadata__\":{\"format\":\"pt\",\"rank\":\"4\"},\
        \"b\":{\"dtype\":\"U8\",\"shape\":[3],\"data_offsets\":[8,11]},\
        \"A\":{\"dtype\":\"F32\",\"shape\":[2],\"data_offsets\":[0,8]}}";
    assert_eq!(seal(&c, &edits, renamed.as_bytes()).err(), Some(WriteError::Unreadable));
    let other_kind = "{\"__metadata__\":{\"format\":\"pt\",\"rank\":\"4\"},\
        \"b\":{\"dtype\":\"I8\",\"shape\":[3],\"data_offsets\":[8,11]},\
        \"a\":{\"dtype\":\"F32\",\"shape\":[2],\"data_offsets\":[0,8]}}";
    assert_eq!(seal(&c, &edits, other_kind.as_bytes()).err(), Some(WriteError::Unreadable));
    let other_shape = "{\"__metadata__\":{\"format\":\"pt\",\"rank\":\"4\"},\
        \"b\":{\"dtype\":\"U8\",\"shape\":[1,3],\"data_offsets\":[8,11]},\
        \"a\":{\"dtype\":\"F32\",\"shape\":[2],\"data_offsets\":[0,8]}}";
    assert_eq!(seal(&c, &edits, other_shape.as_bytes()).err(), Some(WriteError::Unreadable));
    let other_metadata = "{\"__metadata__\":{\"format\":\"pt\",\"rank\":\"8\"},\
        \"b\":{\"dtype\":\"U8\",\"shape\":[3],\"data_offsets\":[8,11]},\
        \"a\":{\"dtype\":\"F32\",\"shape\":[2],\"data_offsets\":[0,8]}}";
    assert_eq!(seal(&c, &edits, other_metadata.as_bytes()).err(), Some(WriteError::Unreadable));
    let no_metadata = "{\"b\":{\"dtype\":\"U8\",\"shape\":[3],\"data_offsets\":[8,11]},\
        \"a\":{\"dtype\":\"F32\",\"shape\":[2],\"data_offsets\":[0,8]}}";
    assert_eq!(seal(&c, &edits, no_metadata.as_bytes()).err(), Some(WriteError::Unreadable));
    let one_missing = "{\"__metadata__\":{\"format\":\"pt\",\"rank\":\"4\"},\
        \"a\":{\"dtype\":\"F32\",\"shape\":[2],\"data_offsets\":[0,8]}}";
    assert_eq!(seal(&c, &edits, one_missing.as_bytes()).err(), Some(WriteError::Unreadable));
    assert_eq!(seal(&c, &edits, b"not json").err(), Some(WriteError::Unreadable));
    assert_eq!(seal(&c, &vec![None], b"{}").err(), Some(WriteError::ReplacementCount));
    assert_eq!(
        seal(&c, &vec![None, Some(vec![])], b"{}").err(),
        Some(WriteError::ReplacementLength { index: 1 })
    );
}

#[test]
fn every_kind_is_written_under_its_token() {
    let kinds = [
        ("BOOL", Dtype::Bool, 8),
        ("F4", Dtype::F4, 4),
        ("F6_E2M3", Dtype::F6E2M3, 6),
        ("F6_E3M2", Dtype::F6E3M2, 6),
        ("U8", Dtype::U8, 8),
        ("I8", Dtype::I8, 8),
        ("F8_E5M2", Dtype::F8E5M2, 8),
        ("F8_E4M3", Dtype::F8E4M3, 8),
        ("F8_E8M0", Dtype::F8E8M0, 8),
        ("F8_E4M3FNUZ", Dtype::F8E4M3Fnuz, 8),
        ("F8_E5M2FNUZ", Dtype::F8E5M2Fnuz, 8),
        ("I16", Dtype::I16, 16),
        ("U16", Dtype::U16, 16),
        ("F16", Dtype::F16, 16),
        ("BF16", Dtype::Bf16, 16),
        ("I32", Dtype::I32, 32),
        ("U32", Dtype::U32, 32),
        ("F32", Dtype::F32, 32),
        ("C64", Dtype::C64, 64),
        ("F64", Dtype::F64, 64),
        ("I64", Dtype::I64, 64),
        ("U64", Dtype::U64, 64),
    ];
    let mut tensors = Vec::new();
    let mut offset = 0;
    for (i, (token, kind, bits)) in kinds.iter().enumerate() {
        assert_eq!(Dtype::from_token(token), Some(*kind));
        assert_eq!(kind.token(), *token);
        assert_eq!(kind.bit_width() as usize, *bits);
        let len = 4 * bits / 8;
        tensors.push(entry(&format!("t{i:02}"), token, vec![4], offset, offset + len));
        offset += len;
    }
    let data = vec![0x5a; offset];
    let c = Container::assemble(RawHeader { tensors, metadata: None }, &data).unwrap();
    let out = write_container(&c, &vec![None; kinds.len()]).unwrap();
    let back = read_container(&out).unwrap();
    assert_eq!(back.tensor_count(), kinds.len());
    for (i, (_, kind, _)) in kinds.iter().enumerate() {
        assert_eq!(back.descriptor(i).dtype, *kind);
        assert_eq!(back.descriptor(i), c.descriptor(i));
    }
}

#[test]
fn assemble_rejects_span_that_overlaps_or_leaves_a_gap() {
    let raw = RawHeader {
        tensors: vec![entry("a", "U8", vec![4], 0, 4), entry("b", "U8", vec![4], 2, 6)],
        metadata: None,
    };
    assert_eq!(
        Container::assemble(raw, &[0; 8]).err(),
        Some(FormatError::SpanMisplaced { tensor: "b".to_string() })
    );
    let raw = RawHeader {
        tensors: vec![entry("a", "U8", vec![2], 0, 2), entry("b", "U8", vec![1], 3, 4)],
        metadata: None,
    };
    assert_eq!(
        Container::assemble(raw, &[0; 8]).err(),
        Some(FormatError::SpanMisplaced { tensor: "b".to_string() })
    );
    let raw = RawHeader { tensors: vec![entry("a", "U8", vec![2], 1, 3)], metadata: None };
    assert_eq!(
        Container::assemble(raw, &[0; 8]).err(),
        Some(FormatError::SpanMisplaced { tensor: "a".to_string() })
    );
}

#[test]
fn assemble_wants_empty_tensors_of_one_place_by_name() {
    let raw = RawHeader {
        tensors: vec![
            entry("a", "U8", vec![2], 0, 2),
            entry("z", "F32", vec![0], 2, 2),
            entry("y", "F32", vec![3, 0], 2, 2),
        ],
        metadata: None,
    };
    assert_eq!(
        Container::assemble(raw, &[0; 2]).err(),
        Some(FormatError::OutOfOrder { tensor: "y".to_string() })
    );
    let raw = RawHeader {
        tensors: vec![
            entry("a", "U8", vec![2], 0, 2),
            entry("y", "F32", vec![3, 0], 2, 2),
            entry("z", "F32", vec![0], 2, 2),
            entry("b", "I16", vec![1], 2, 4),
        ],
        metadata: None,
    };
    let data = [1u8, 2, 3, 4, 5];
    let c = Container::assemble(raw, &data).unwrap();
    assert_eq!(c.tensor_count(), 4);
    assert_eq!(c.payload(1), &[0u8; 0][..]);
    assert_eq!(c.payload(3), &[3u8, 4][..]);
    assert_eq!(c.data().len(), 5);
}

#[test]
fn entries_sort_by_span_then_name() {
    let sorted = sort_entries(vec![
        entry("m", "U8", vec![1], 4, 5),
        entry("b", "U8", vec![0], 4, 4),
        entry("k", "U8", vec![4], 0, 4),
        entry("a", "U8", vec![0], 4, 4),
        entry("ab", "U8", vec![0], 4, 4),
        entry("", "U8", vec![0], 0, 0),
    ]);
    let names: Vec<&str> = sorted.iter().map(|e| e.name.as_str()).collect();
    assert_eq!(names, vec!["", "k", "a", "ab", "b", "m"]);
    assert!(sort_entries(vec![]).is_empty());
    assert!(entry_precedes(&entry("z", "U8", vec![], 0, 1), &entry("a", "U8", vec![], 1, 1)));
    assert!(entry_precedes(&entry("z", "U8", vec![], 1, 1), &entry("a", "U8", vec![], 1, 2)));
    assert!(entry_precedes(&entry("a", "U8", vec![], 1, 1), &entry("aa", "U8", vec![], 1, 1)));
    assert!(!entry_precedes(&entry("a", "U8", vec![], 1, 1), &entry("a", "U8", vec![], 1, 1)));
    assert!(!entry_precedes(&entry("b", "U8", vec![], 1, 1), &entry("a", "U8", vec![], 1, 1)));
}

#[test]
fn empty_tensors_of_one_place_are_read_in_name_order() {
    let header = "{\"q\":{\"dtype\":\"F32\",\"shape\":[0],\"data_offsets\":[4,4]},\
        \"w\":{\"dtype\":\"U8\",\"shape\":[4],\"data_offsets\":[0,4]},\
        \"c\":{\"dtype\":\"I64\",\"shape\":[0,2],\"data_offsets\":[4,4]},\
        \"x\":{\"dtype\":\"U8\",\"shape\":[1],\"data_offsets\":[4,5]},\
        \"h\":{\"dtype\":\"F16\",\"shape\":[0],\"data_offsets\":[4,4]}}";
    let bytes = file_bytes(header, &[1, 2, 3, 4, 5]);
    for _ in 0..20 {
        let c = read_container(&bytes).unwrap();
        let names: Vec<&str> =
            (0..c.tensor_count()).map(|i| c.descriptor(i).name.as_str()).collect();
        assert_eq!(names, vec!["w", "c", "h", "q", "x"]);
        let out = write_container(&c, &vec![None; 5]).unwrap();
        let back = read_container(&out).unwrap();
        for i in 0..5 {
            assert_eq!(back.descriptor(i), c.descriptor(i));
            assert_eq!(back.payload(i), c.payload(i));
        }
    }
}

#[test]
fn header_with_a_gap_between_spans_is_rejected() {
    let header = "{\"a\":{\"dtype\":\"U8\",\"shape\":[2],\"data_offsets\":[0,2]},\
        \"b\":{\"dtype\":\"U8\",\"shape\":[2],\"data_offsets\":[3,5]}}";
    let bytes = file_bytes(header, &[0; 5]);
    assert_eq!(read_container(&bytes).err(), Some(FormatError::MalformedHeader));
}

#[test]
fn bytes_after_the_last_span_are_tolerated() {
    let header = "{\"a\":{\"dtype\":\"U8\",\"shape\":[2],\"data_offsets\":[0,2]}}";
    let bytes = file_bytes(header, &[7, 8, 9, 9]);
    let c = read_container(&bytes).unwrap();
    assert_eq!(c.payload(0), &[7u8, 8][..]);
    assert_eq!(c.data().len(), 4);
    let out = write_container(&c, &vec![None]).unwrap();
    assert_eq!(read_container(&out).unwrap().data(), &[7u8, 8][..]);
}

#[test]
fn packing_leaves_the_spans_where_they_are() {
    let bytes = two_tensor_file();
    let c = read_container(&bytes).unwrap();
    let table = packed_table(&c);
    assert_eq!(table.len(), 2);
    for (i, d) in table.iter().enumerate() {
        assert_eq!(d, c.descriptor(i));
    }
    assert_eq!((table[0].start, table[0].end), (0, 8));
    assert_eq!((table[1].start, table[1].end), (8, 11));
}
