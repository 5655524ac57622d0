use dataset_tools::files::{is_image_extension, is_image_file, is_jxl_extension, is_jxl_file};
use dataset_tools::lora::{process_lora, ProcessError};
use dataset_tools::error::{FormatError, SelectionError};
use dataset_tools::metadata::{decode_metadata_value, decode_with, get_json_metadata, MetaValue};
use dataset_tools::naming::{abbreviate_key, generate_new_filename, NamingError};
use dataset_tools::reader::read_container;

fn file_bytes(header: &str, data: &[u8]) -> Vec<u8> {
    let mut bytes = (header.len() as u64).to_le_bytes().to_vec();
    bytes.extend_from_slice(header.as_bytes());
    bytes.extend_from_slice(data);
    bytes
}

fn floats(values: &[f32]) -> Vec<u8> {
    let mut bytes = Vec::new();
    for v in values {
        bytes.extend_from_slice(&v.to_le_bytes());
    }
    bytes
}

fn read_floats(bytes: &[u8]) -> Vec<f32> {
    bytes.chunks(4).map(|c| f32::from_le_bytes([c[0], c[1], c[2], c[3]])).collect()
}

#[test]
fn abbreviates_text_encoder_key() {
    assert_eq!(
        abbreviate_key("lora_te2_text_model_encoder_layers_23_self_attn_k_proj"),
        Ok("te2tmel23sakp".to_string())
    );
    assert_eq!(
        abbreviate_key("lora_te2_text_model_encoder_layers_23_self_attn_k_proj.lora_down.weight"),
        Ok("te2tmel23sakpldw".to_string())
    );
}

#[test]
fn abbreviates_unet_key() {
    assert_eq!(
        abbreviate_key("lora_unet_input_blocks_7_1_transformer_blocks_1_attn1_to_out_0"),
        Ok("ib71tb1ato0".to_string())
    );
    assert_eq!(
        abbreviate_key(
            "lora_unet_input_blocks_7_1_transformer_blocks_1_attn1_to_out_0.lora_up.weight"
        ),
        Ok("ib71tb1ato0luw".to_string())
    );
}

#[test]
fn abbreviation_rules_at_the_edges() {
    assert_eq!(abbreviate_key("lora"), Ok(String::new()));
    assert_eq!(abbreviate_key(""), Ok(String::new()));
    assert_eq!(abbreviate_key("te1_te2_x"), Ok("te1te2x".to_string()));
    assert_eq!(abbreviate_key("te1_model_x"), Ok("te1x".to_string()));
    assert_eq!(abbreviate_key("model_unet_x"), Ok("ux".to_string()));
    assert_eq!(abbreviate_key("12_34_+5_007"), Ok("34+5007".to_string()));
    assert_eq!(abbreviate_key("a_-5_1x_x1"), Ok("-1x".to_string()));
    assert_eq!(
        abbreviate_key("a_99999999999999999999999999_4"),
        Ok("94".to_string())
    );
    assert_eq!(abbreviate_key("a_+_b"), Ok("+b".to_string()));
    assert_eq!(abbreviate_key("_x"), Ok("x".to_string()));
    assert_eq!(abbreviate_key("lora__x"), Ok("x".to_string()));
}

#[test]
fn empty_segment_has_no_abbreviation() {
    assert_eq!(abbreviate_key("lora_unet__x"), Err(NamingError::EmptySegment));
    assert_eq!(abbreviate_key("lora_unet_x_"), Err(NamingError::EmptySegment));
    assert_eq!(abbreviate_key("a__"), Err(NamingError::EmptySegment));
    assert_eq!(abbreviate_key("a.b..c"), Err(NamingError::EmptySegment));
}

#[test]
fn file_name_joins_abbreviations_with_plus() {
    let keys = vec![
        "lora_te2_text_model_encoder_layers_23_self_attn_k_proj".to_string(),
        "lora_unet_input_blocks_7_1_transformer_blocks_1_attn1_to_out_0".to_string(),
    ];
    assert_eq!(
        generate_new_filename(
            "obra-compass-v1e400_frockpt1_th-3.55",
            "scaled",
            "safetensors",
            &keys
        ),
        Ok("obra-compass-v1e400_frockpt1_th-3.55-scaled-te2tmel23sakp+ib71tb1ato0.safetensors"
            .to_string())
    );
}

#[test]
fn file_name_of_one_or_no_key() {
    assert_eq!(
        generate_new_filename("m", "cut", "bin", &vec!["lora_unet_mid_3".to_string()]),
        Ok("m-cut-m3.bin".to_string())
    );
    assert_eq!(generate_new_filename("m", "cut", "bin", &vec![]), Ok("m-cut-.bin".to_string()));
    assert_eq!(
        generate_new_filename("m", "cut", "bin", &vec!["a_b".to_string(), "c__".to_string()]),
        Err(NamingError::EmptySegment)
    );
}

#[test]
fn literal_spellings_decode() {
    assert_eq!(decode_metadata_value("True"), MetaValue::Bool(true));
    assert_eq!(decode_metadata_value("False"), MetaValue::Bool(false));
    assert_eq!(decode_metadata_value("None"), MetaValue::Null);
    assert_eq!(decode_metadata_value("hello"), MetaValue::Text("hello".to_string()));
    assert_eq!(decode_metadata_value("TRUE"), MetaValue::Text("TRUE".to_string()));
    assert_eq!(decode_metadata_value(""), MetaValue::Text(String::new()));
}

#[test]
fn json_text_decodes_as_json() {
    assert_eq!(decode_metadata_value("3"), MetaValue::Json(serde_json::Value::from(3)));
    assert_eq!(decode_metadata_value("true"), MetaValue::Json(serde_json::Value::Bool(true)));
    assert_eq!(decode_metadata_value("null"), MetaValue::Json(serde_json::Value::Null));
    assert_eq!(
        decode_metadata_value("\"hello\""),
        MetaValue::Json(serde_json::Value::String("hello".to_string()))
    );
    let mut object = serde_json::Map::new();
    object.insert("a".to_string(), serde_json::Value::from(1));
    assert_eq!(
        decode_metadata_value("{\"a\":1}"),
        MetaValue::Json(serde_json::Value::Object(object))
    );
}

#[test]
fn decoding_follows_the_parser() {
    assert_eq!(
        decode_with("True", Some(serde_json::Value::from(1))),
        MetaValue::Json(serde_json::Value::from(1))
    );
    assert_eq!(decode_with("3", None), MetaValue::Text("3".to_string()));
    assert_eq!(decode_with("None", None), MetaValue::Null);
}

#[test]
fn metadata_of_a_file_is_decoded() {
    let header = "{\"__metadata__\":{\"ss_v2\":\"False\",\"ss_steps\":\"400\",\
        \"ss_name\":\"obra\",\"ss_tags\":\"{\\\"cat\\\": 2}\",\"ss_seed\":\"None\"},\
        \"a\":{\"dtype\":\"U8\",\"shape\":[1],\"data_offsets\":[0,1]}}";
    let bytes = file_bytes(header, &[0]);
    let mut entries = get_json_metadata(&bytes).unwrap();
    entries.sort_by(|a, b| a.0.cmp(&b.0));
    let mut tags = serde_json::Map::new();
    tags.insert("cat".to_string(), serde_json::Value::from(2));
    assert_eq!(
        entries,
        vec![
            ("ss_name".to_string(), MetaValue::Text("obra".to_string())),
            ("ss_seed".to_string(), MetaValue::Null),
            ("ss_steps".to_string(), MetaValue::Json(serde_json::Value::from(400))),
            ("ss_tags".to_string(), MetaValue::Json(serde_json::Value::Object(tags))),
            ("ss_v2".to_string(), MetaValue::Bool(false)),
        ]
    );
}

#[test]
fn file_without_metadata_decodes_to_no_entries() {
    let header = "{\"a\":{\"dtype\":\"U8\",\"shape\":[1],\"data_offsets\":[0,1]}}";
    let bytes = file_bytes(header, &[0]);
    assert_eq!(get_json_metadata(&bytes), Ok(vec![]));
    let header = "{\"__metadata__\":{},\
        \"a\":{\"dtype\":\"U8\",\"shape\":[1],\"data_offsets\":[0,1]}}";
    let bytes = file_bytes(header, &[0]);
    assert_eq!(get_json_metadata(&bytes), Ok(vec![]));
    assert_eq!(get_json_metadata(&[1, 2, 3]), Err(FormatError::TooShort));
}

#[test]
fn json_strings_and_near_literals_decode() {
    let header = "{\"__metadata__\":{\"a\":\"none\",\"b\":\"TRUE\",\
        \"c\":\"\\\"True\\\"\",\"k\":\"3\",\"o\":\"{\\\"a\\\":1}\"},\
        \"t\":{\"dtype\":\"U8\",\"shape\":[1],\"data_offsets\":[0,1]}}";
    let bytes = file_bytes(header, &[0]);
    let mut entries = get_json_metadata(&bytes).unwrap();
    entries.sort_by(|a, b| a.0.cmp(&b.0));
    let mut object = serde_json::Map::new();
    object.insert("a".to_string(), serde_json::Value::from(1));
    assert_eq!(
        entries,
        vec![
            ("a".to_string(), MetaValue::Text("none".to_string())),
            ("b".to_string(), MetaValue::Text("TRUE".to_string())),
            ("c".to_string(), MetaValue::Json(serde_json::Value::String("True".to_string()))),
            ("k".to_string(), MetaValue::Json(serde_json::Value::from(3))),
            ("o".to_string(), MetaValue::Json(serde_json::Value::Object(object))),
        ]
    );
}

#[test]
fn process_rescales_two_blocks_and_names_the_file() {
    let header = "{\"__metadata__\":{\"ss_rank\":\"4\"},\
        \"lora_unet_x\":{\"dtype\":\"F32\",\"shape\":[4],\"data_offsets\":[0,16]},\
        \"lora_te1_y\":{\"dtype\":\"F32\",\"shape\":[2],\"data_offsets\":[16,24]},\
        \"plain\":{\"dtype\":\"F32\",\"shape\":[1],\"data_offsets\":[24,28]}}";
    let mut data = floats(&[1.0, 2.0, 3.0, 4.0]);
    data.extend_from_slice(&floats(&[10.0, 20.0]));
    data.extend_from_slice(&floats(&[5.0]));
    let bytes = file_bytes(header, &data);
    let double = |_slot: usize, bits: u32| (f32::from_bits(bits) * 2.0).to_bits();
    let file = process_lora(&bytes, "model", "safetensors", 11, &double).unwrap();
    let mut selected = file.selected.clone();
    selected.sort();
    assert_eq!(selected, vec![0, 1]);
    assert!(file.skipped.is_empty());
    let expected = if file.selected == vec![0, 1] {
        "model-scaled-x+te1y.safetensors"
    } else {
        "model-scaled-te1y+x.safetensors"
    };
    let declared = u64::from_le_bytes([
        file.bytes[0],
        file.bytes[1],
        file.bytes[2],
        file.bytes[3],
        file.bytes[4],
        file.bytes[5],
        file.bytes[6],
        file.bytes[7],
    ]) as usize;
    assert_eq!(file.bytes.len(), 8 + declared + 28);
    assert_eq!(file.file_name, expected);
    let back = read_container(&file.bytes).unwrap();
    assert_eq!(back.tensor_count(), 3);
    assert_eq!(read_floats(back.payload(0)), vec![2.0, 4.0, 6.0, 8.0]);
    assert_eq!(read_floats(back.payload(1)), vec![20.0, 40.0]);
    assert_eq!(read_floats(back.payload(2)), vec![5.0]);
    assert_eq!(back.descriptor(2).name, "plain");
    assert_eq!(back.metadata(), &Some(vec![("ss_rank".to_string(), "4".to_string())]));
}

#[test]
fn process_fails_before_writing_without_two_blocks() {
    let header = "{\"lora_unet_x\":{\"dtype\":\"F32\",\"shape\":[1],\"data_offsets\":[0,4]}}";
    let bytes = file_bytes(header, &[0; 4]);
    let same = |_slot: usize, bits: u32| bits;
    match process_lora(&bytes, "m", "st", 0, &same) {
        Err(ProcessError::Selection(e)) => {
            assert_eq!(e, SelectionError { requested: 2, available: 1 })
        }
        _ => panic!("two blocks were chosen from one"),
    }
    match process_lora(&[0; 4], "m", "st", 0, &same) {
        Err(ProcessError::Format(e)) => assert_eq!(e, FormatError::TooShort),
        _ => panic!("four bytes were read as a container"),
    }
}

#[test]
fn image_files_by_extension() {
    assert!(is_image_file("a/b/photo.jpg"));
    assert!(is_image_file("photo.JPEG"));
    assert!(is_image_file("x.y.Png"));
    assert!(is_image_file("scan.jxl"));
    assert!(!is_image_file("photo.gif"));
    assert!(!is_image_file("photo"));
    assert!(!is_image_file(".png"));
    assert!(!is_image_file("dir.png/file"));
    assert!(!is_image_file(""));
    assert!(is_jxl_file("a.JXL"));
    assert!(!is_jxl_file("a.png"));
    assert!(!is_jxl_file("jxl"));
}

#[test]
fn image_extensions_ignore_ascii_case() {
    assert!(is_image_extension("jpg"));
    assert!(is_image_extension("JpEg"));
    assert!(is_image_extension("PNG"));
    assert!(is_image_extension("jxl"));
    assert!(!is_image_extension("jp"));
    assert!(!is_image_extension("jpgg"));
    assert!(!is_image_extension(""));
    assert!(!is_image_extension("tiff"));
    assert!(is_jxl_extension("Jxl"));
    assert!(!is_jxl_extension("jpg"));
}

#[test]
fn process_fails_on_a_name_without_abbreviation() {
    let header = "{\"lora_unet__x\":{\"dtype\":\"F32\",\"shape\":[1],\"data_offsets\":[0,4]},\
        \"lora_te_y_\":{\"dtype\":\"F32\",\"shape\":[1],\"data_offsets\":[4,8]}}";
    let bytes = file_bytes(header, &[0; 8]);
    let same = |_slot: usize, bits: u32| bits;
    match process_lora(&bytes, "m", "st", 5, &same) {
        Err(ProcessError::Naming(e)) => assert_eq!(e, NamingError::EmptySegment),
        _ => panic!("a name with an empty segment was abbreviated"),
    }
}

#[test]
fn process_keeps_the_extension_of_the_source() {
    let header = "{\"lora_unet_a\":{\"dtype\":\"F32\",\"shape\":[1],\"data_offsets\":[0,4]},\
        \"lora_unet_a_1\":{\"dtype\":\"F32\",\"shape\":[1],\"data_offsets\":[4,8]}}";
    let bytes = file_bytes(header, &[0; 8]);
    let same = |_slot: usize, bits: u32| bits;
    let file = process_lora(&bytes, "w", "ckpt", 9, &same).unwrap();
    assert!(file.file_name == "w-scaled-a+a1.ckpt" || file.file_name == "w-scaled-a1+a.ckpt");
    let file = process_lora(&bytes, "w", "", 9, &same).unwrap();
    assert!(file.file_name == "w-scaled-a+a1." || file.file_name == "w-scaled-a1+a.");
}
