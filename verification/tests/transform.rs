use dataset_tools::dtype::Dtype;
use dataset_tools::error::SelectionError;
use dataset_tools::reader::read_container;
use dataset_tools::select::{
    matching_tensors, pick_tensors, select_tensors, starts_with, starts_with_any,
};
use dataset_tools::transform::{map_words, scale_tensors};
use dataset_tools::writer::write_container;

fn file_bytes(header: &str, data: &[u8]) -> Vec<u8> {
    let mut bytes = (header.len() as u64).to_le_bytes().to_vec();
    bytes.extend_from_slice(header.as_bytes());
    bytes.extend_from_slice(data);
    bytes
}

fn floats(values: &[f32]) -> Vec<u8> {
    let mut bytes = Vec::new();
    for v in values {
        bytes.extend_from_slice(&v.to_le_bytes());
    }
    bytes
}

fn read_floats(bytes: &[u8]) -> Vec<f32> {
    bytes.chunks(4).map(|c| f32::from_le_bytes([c[0], c[1], c[2], c[3]])).collect()
}

fn double(_slot: usize, bits: u32) -> u32 {
    (f32::from_bits(bits) * 2.0).to_bits()
}

fn lora_file() -> Vec<u8> {
    let header = "{\"lora_unet_x\":{\"dtype\":\"F32\",\"shape\":[4],\"data_offsets\":[0,16]},\
        \"lora_te1_y\":{\"dtype\":\"F32\",\"shape\":[2],\"data_offsets\":[16,24]}}";
    let mut data = floats(&[1.0, 2.0, 3.0, 4.0]);
    data.extend_from_slice(&floats(&[10.0, 20.0]));
    file_bytes(header, &data)
}

fn prefixes() -> Vec<String> {
    vec!["lora_unet".to_string(), "lora_te".to_string()]
}

#[test]
fn map_words_applies_the_function_to_each_word() {
    let out = map_words(&floats(&[1.0, -0.5, 0.0]), 0, &double);
    assert_eq!(read_floats(&out), vec![2.0, -1.0, 0.0]);
    let out = map_words(&[1, 0, 0, 0, 0xff, 0xff, 0xff, 0xff], 3, &|slot: usize, w: u32| {
        w.wrapping_add(slot as u32)
    });
    assert_eq!(out, vec![4, 0, 0, 0, 2, 0, 0, 0]);
    assert_eq!(map_words(&[], 0, &double), Vec::<u8>::new());
}

#[test]
fn map_words_reads_little_endian() {
    let out = map_words(&[0x78, 0x56, 0x34, 0x12], 0, &|_s: usize, w: u32| {
        assert_eq!(w, 0x12345678);
        0xa1b2c3d4
    });
    assert_eq!(out, vec![0xd4, 0xc3, 0xb2, 0xa1]);
}

#[test]
fn both_blocks_scaled_by_two() {
    let bytes = lora_file();
    let c = read_container(&bytes).unwrap();
    let selected = select_tensors(&c, &prefixes(), 2, 7).unwrap();
    let scaled = scale_tensors(&c, &selected, &double);
    assert!(scaled.skipped.is_empty());
    let out = write_container(&c, &scaled.edits).unwrap();
    let back = read_container(&out).unwrap();
    assert_eq!(back.tensor_count(), 2);
    let x = back.find("lora_unet_x").unwrap();
    let y = back.find("lora_te1_y").unwrap();
    assert_eq!(read_floats(back.payload(x)), vec![2.0, 4.0, 6.0, 8.0]);
    assert_eq!(read_floats(back.payload(y)), vec![20.0, 40.0]);
    assert_eq!(back.descriptor(x).shape, vec![4]);
    assert_eq!(back.descriptor(y).shape, vec![2]);
    assert_eq!(back.descriptor(x).dtype, Dtype::F32);
    assert_eq!(back.descriptor(0).start, 0);
    assert_eq!(back.descriptor(0).end, back.descriptor(1).start);
    assert_eq!(back.descriptor(1).end, back.data().len());
    assert_eq!(back.data().len(), 24);
}

#[test]
fn replacement_keeps_the_length_of_the_payload() {
    let bytes = lora_file();
    let c = read_container(&bytes).unwrap();
    let scaled = scale_tensors(&c, &vec![1], &double);
    assert_eq!(scaled.edits.len(), 2);
    assert!(scaled.edits[0].is_none());
    assert_eq!(scaled.edits[1].as_ref().unwrap().len(), c.payload(1).len());
    assert_eq!(read_floats(scaled.edits[1].as_ref().unwrap()), vec![20.0, 40.0]);
}

#[test]
fn each_tensor_gets_the_slot_it_was_drawn_at() {
    let bytes = lora_file();
    let c = read_container(&bytes).unwrap();
    let factors = [3.0f32, 0.5];
    let scale = |slot: usize, bits: u32| (f32::from_bits(bits) * factors[slot]).to_bits();
    let scaled = scale_tensors(&c, &vec![1, 0], &scale);
    assert_eq!(read_floats(scaled.edits[1].as_ref().unwrap()), vec![30.0, 60.0]);
    assert_eq!(read_floats(scaled.edits[0].as_ref().unwrap()), vec![0.5, 1.0, 1.5, 2.0]);
    let scaled = scale_tensors(&c, &vec![0, 0], &scale);
    assert_eq!(read_floats(scaled.edits[0].as_ref().unwrap()), vec![3.0, 6.0, 9.0, 12.0]);
    assert!(scaled.edits[1].is_none());
}

#[test]
fn tensor_of_other_kind_is_passed_through() {
    let header = "{\"lora_unet_q\":{\"dtype\":\"I64\",\"shape\":[1],\"data_offsets\":[0,8]},\
        \"lora_te1_y\":{\"dtype\":\"F32\",\"shape\":[2],\"data_offsets\":[8,16]},\
        \"other\":{\"dtype\":\"F16\",\"shape\":[2],\"data_offsets\":[16,20]}}";
    let mut data = vec![1u8, 2, 3, 4, 5, 6, 7, 8];
    data.extend_from_slice(&floats(&[10.0, 20.0]));
    data.extend_from_slice(&[9, 9, 9, 9]);
    let bytes = file_bytes(header, &data);
    let c = read_container(&bytes).unwrap();
    let selected = select_tensors(&c, &prefixes(), 2, 1).unwrap();
    let mut sorted = selected.clone();
    sorted.sort();
    assert_eq!(sorted, vec![0, 1]);
    let scaled = scale_tensors(&c, &selected, &double);
    assert_eq!(scaled.skipped, vec![0]);
    assert!(scaled.edits[0].is_none());
    assert!(scaled.edits[2].is_none());
    let out = write_container(&c, &scaled.edits).unwrap();
    let back = read_container(&out).unwrap();
    assert_eq!(back.tensor_count(), 3);
    assert_eq!(back.payload(0), &[1u8, 2, 3, 4, 5, 6, 7, 8][..]);
    assert_eq!(back.descriptor(0).dtype, Dtype::I64);
    assert_eq!(read_floats(back.payload(1)), vec![20.0, 40.0]);
    assert_eq!(back.payload(2), &[9u8, 9, 9, 9][..]);
}

#[test]
fn selection_of_two_from_one_match_fails() {
    let header = "{\"lora_unet_x\":{\"dtype\":\"F32\",\"shape\":[1],\"data_offsets\":[0,4]},\
        \"bias\":{\"dtype\":\"F32\",\"shape\":[1],\"data_offsets\":[4,8]}}";
    let bytes = file_bytes(header, &[0; 8]);
    let c = read_container(&bytes).unwrap();
    assert_eq!(
        select_tensors(&c, &prefixes(), 2, 0),
        Err(SelectionError { requested: 2, available: 1 })
    );
    assert_eq!(select_tensors(&c, &prefixes(), 1, 0), Ok(vec![0]));
    assert_eq!(select_tensors(&c, &prefixes(), 0, 0), Ok(vec![]));
    assert_eq!(
        select_tensors(&c, &vec![], 1, 0),
        Err(SelectionError { requested: 1, available: 0 })
    );
}

#[test]
fn selection_is_distinct_and_repeatable() {
    let mut header = String::from("{");
    for i in 0..20 {
        if i > 0 {
            header.push(',');
        }
        let family = if i % 2 == 0 { "lora_unet" } else { "plain" };
        header.push_str(&format!(
            "\"{}_{:02}\":{{\"dtype\":\"U8\",\"shape\":[1],\"data_offsets\":[{},{}]}}",
            family,
            i,
            i,
            i + 1
        ));
    }
    header.push('}');
    let bytes = file_bytes(&header, &[0; 20]);
    let c = read_container(&bytes).unwrap();
    for seed in 0..50u64 {
        let chosen = select_tensors(&c, &prefixes(), 4, seed).unwrap();
        assert_eq!(chosen.len(), 4);
        for (i, t) in chosen.iter().enumerate() {
            assert!(c.descriptor(*t).name.starts_with("lora_unet"));
            assert!(!chosen[..i].contains(t));
        }
        assert_eq!(select_tensors(&c, &prefixes(), 4, seed).unwrap(), chosen);
    }
    let mut all = select_tensors(&c, &prefixes(), 10, 3).unwrap();
    all.sort();
    assert_eq!(all, vec![0, 2, 4, 6, 8, 10, 12, 14, 16, 18]);
    assert_eq!(
        select_tensors(&c, &prefixes(), 11, 3),
        Err(SelectionError { requested: 11, available: 10 })
    );
}

#[test]
fn matching_is_by_prefix_in_table_order() {
    let bytes = lora_file();
    let c = read_container(&bytes).unwrap();
    assert_eq!(matching_tensors(&c, &prefixes()), vec![0, 1]);
    assert_eq!(matching_tensors(&c, &vec!["lora_te".to_string()]), vec![1]);
    assert_eq!(matching_tensors(&c, &vec!["Lora".to_string()]), Vec::<usize>::new());
    assert_eq!(matching_tensors(&c, &vec!["".to_string()]), vec![0, 1]);
}

#[test]
fn prefix_tests() {
    assert!(starts_with("lora_unet_x", "lora_unet"));
    assert!(starts_with("lora", "lora"));
    assert!(starts_with("lora", ""));
    assert!(!starts_with("lor", "lora"));
    assert!(!starts_with("xlora_unet", "lora"));
    assert!(starts_with_any("lora_te2_k", &prefixes()));
    assert!(!starts_with_any("te2_k", &prefixes()));
    assert!(!starts_with_any("lora_te2_k", &vec![]));
}

#[test]
fn picks_are_looked_up_among_the_candidates() {
    assert_eq!(pick_tensors(&vec![4, 7, 9], &vec![2, 0]), Some(vec![9, 4]));
    assert_eq!(pick_tensors(&vec![4, 7, 9], &vec![]), Some(vec![]));
    assert_eq!(pick_tensors(&vec![4, 7, 9], &vec![0, 3]), None);
    assert_eq!(pick_tensors(&vec![], &vec![0]), None);
}
