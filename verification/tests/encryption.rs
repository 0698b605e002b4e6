use chipa_license_validator::encryption::{check_load_path, normalize_save_path, ChipaError, ChipaFile};
use chipa_license_validator::version::Version;
use std::collections::{BTreeMap, BTreeSet, HashMap, HashSet, LinkedList, VecDeque};
use std::num::{
    NonZeroI128, NonZeroI16, NonZeroI32, NonZeroI64, NonZeroI8, NonZeroU128, NonZeroU16,
    NonZeroU32, NonZeroU64, NonZeroU8,
};

// A stand-in encryption capability for exercising the pipeline: a keyed
// XOR stream behind a 3-byte key tag, so that decryption under another key
// is detected rather than yielding garbage.

fn key_tag(key: &str) -> [u8; 3] {
    let sum = key.bytes().fold(0u8, |a, b| a.wrapping_add(b));
    let xor = key.bytes().fold(0u8, |a, b| a ^ b);
    [key.len() as u8, sum, xor]
}

fn toy_encrypt(key: &str, data: &[u8]) -> Result<Vec<u8>, String> {
    if key.is_empty() {
        return Err("empty key".to_string());
    }
    let kb = key.as_bytes();
    let mut out = key_tag(key).to_vec();
    out.extend(data.iter().enumerate().map(|(i, b)| b ^ kb[i % kb.len()]));
    Ok(out)
}

fn toy_decrypt(key: &str, data: &[u8]) -> Result<Vec<u8>, String> {
    if key.is_empty() {
        return Err("empty key".to_string());
    }
    if data.len() < 3 || data[..3] != key_tag(key) {
        return Err("key does not match ciphertext".to_string());
    }
    let kb = key.as_bytes();
    Ok(data[3..].iter().enumerate().map(|(i, b)| b ^ kb[i % kb.len()]).collect())
}

fn base_key(version: Version) -> String {
    format!("base-scope-{}", version.to_u16())
}

fn save_bytes(file: &ChipaFile, key: &str) -> Result<Vec<u8>, ChipaError> {
    let sealed = file.with_body_encrypted(toy_encrypt(key, file.body()))?;
    let frame = sealed.to_frame();
    ChipaFile::assemble_file(file.version(), toy_encrypt(&base_key(file.version()), &frame))
}

fn load_bytes(path: &str, data: &Vec<u8>, key: &str) -> Result<ChipaFile, ChipaError> {
    check_load_path(path)?;
    let (version, ciphertext) = ChipaFile::split_file(data)?;
    let frame = ChipaFile::base_decrypted(toy_decrypt(&base_key(version), &ciphertext))?;
    let sealed = ChipaFile::from_frame(&frame)?;
    sealed.with_body_decrypted(toy_decrypt(key, sealed.body()))
}

fn roundtrip<T>(path: &str, data: &T)
where
    T: serde::Serialize + serde::de::DeserializeOwned + PartialEq + std::fmt::Debug,
{
    let key = "test_encryption_key";
    let file = ChipaFile::new(Version::V1, data).unwrap();
    let target = normalize_save_path(path);
    let bytes = save_bytes(&file, key).unwrap();
    let loaded = load_bytes(&target, &bytes, key).unwrap();
    let out: T = loaded.read().unwrap();
    assert_eq!(&out, data);
}

#[test]
fn test_different_data_types() {
    let file_path = "test_types.chipa";
    let key = "test_key_123";

    let string_data = "Hello, World!".to_string();
    let chipa_file = ChipaFile::new(Version::V1, &string_data).unwrap();
    let saved = save_bytes(&chipa_file, key).unwrap();
    assert_eq!(normalize_save_path(file_path), file_path);

    let loaded_file = load_bytes(file_path, &saved, key).unwrap();
    let loaded_string: String = loaded_file.read().unwrap();
    println!("Loaded String: {}", loaded_string);
    assert_eq!(loaded_string, string_data);

    let vec_data = vec![1, 2, 3, 4, 5];
    let chipa_file = ChipaFile::new(Version::V1, &vec_data).unwrap();
    let saved = save_bytes(&chipa_file, key).unwrap();

    let loaded_file = load_bytes(file_path, &saved, key).unwrap();
    let loaded_vec: Vec<i32> = loaded_file.read().unwrap();
    assert_eq!(loaded_vec, vec_data);
}

#[test]
fn test_wrong_key_rejection() {
    let key = "test_key_123";
    let data = "Hello, World!".to_string();
    let file = ChipaFile::new(Version::V1, &data).unwrap();
    let saved = save_bytes(&file, key).unwrap();

    let err = load_bytes("test_types.chipa", &saved, "wrong").unwrap_err();
    assert!(matches!(err, ChipaError::Decryption(_)));
    assert!(err.message().starts_with("Decryption error, "));
}

#[test]
fn test_primitive_types() {
    let path = "chipa/test_primitive.chipa";
    roundtrip(path, &true);
    roundtrip(path, &false);
    roundtrip(path, &123i8);
    roundtrip(path, &-123i8);
    roundtrip(path, &123u8);
    roundtrip(path, &123i16);
    roundtrip(path, &-123i16);
    roundtrip(path, &123u16);
    roundtrip(path, &123i32);
    roundtrip(path, &-123i32);
    roundtrip(path, &123u32);
    roundtrip(path, &123i64);
    roundtrip(path, &-123i64);
    roundtrip(path, &123u64);
    roundtrip(path, &123i128);
    roundtrip(path, &-123i128);
    roundtrip(path, &123u128);
    roundtrip(path, &123.456f32);
    roundtrip(path, &123.456f64);
    roundtrip(path, &'a');
    roundtrip(path, &"hello".to_string());
}

#[test]
fn test_compound_types() {
    let path = "chipa/test_compound_types.chipa";
    roundtrip(path, &[1, 2, 3]);
    roundtrip(path, &vec![1, 2, 3]);
    roundtrip(path, &("hello".to_string(), 123));
    roundtrip(path, &Some("world".to_string()));
    roundtrip(path, &None::<String>);
    let mut map = HashMap::new();
    map.insert("key1".to_string(), 1);
    map.insert("key2".to_string(), 2);
    roundtrip(path, &map);
    let mut set = HashSet::new();
    set.insert(1);
    set.insert(2);
    roundtrip(path, &set);
    roundtrip(path, &BTreeMap::from([("a".to_string(), 1), ("b".to_string(), 2)]));
    roundtrip(path, &BTreeSet::from([1, 2, 3]));
    roundtrip(path, &LinkedList::from([1, 2, 3]));
    roundtrip(path, &VecDeque::from([1, 2, 3]));
}

#[test]
fn test_other_standard_types() {
    let path = "chipa/test_standard_types.chipa";
    roundtrip(path, &bytes::Bytes::from_static(b"some bytes"));
    roundtrip(path, &std::path::PathBuf::from("a/b/c"));
    roundtrip(path, &std::time::Duration::from_secs(60));
    roundtrip(path, &uuid::Uuid::new_v4());
}

#[test]
fn test_non_zero_types() {
    let path = "chipa/test_non_zero_types.chipa";
    roundtrip(path, &NonZeroI8::new(1).unwrap());
    roundtrip(path, &NonZeroU8::new(1).unwrap());
    roundtrip(path, &NonZeroI16::new(1).unwrap());
    roundtrip(path, &NonZeroU16::new(1).unwrap());
    roundtrip(path, &NonZeroI32::new(1).unwrap());
    roundtrip(path, &NonZeroU32::new(1).unwrap());
    roundtrip(path, &NonZeroI64::new(1).unwrap());
    roundtrip(path, &NonZeroU64::new(1).unwrap());
    roundtrip(path, &NonZeroI128::new(1).unwrap());
    roundtrip(path, &NonZeroU128::new(1).unwrap());
}

#[derive(PartialEq, Debug)]
struct CustomStruct {
    name: String,
    age: u32,
    data: Vec<i32>,
}

impl serde::Serialize for CustomStruct {
    fn serialize<S: serde::Serializer>(&self, s: S) -> Result<S::Ok, S::Error> {
        (&self.name, self.age, &self.data).serialize(s)
    }
}

impl<'de> serde::Deserialize<'de> for CustomStruct {
    fn deserialize<D: serde::Deserializer<'de>>(d: D) -> Result<Self, D::Error> {
        let (name, age, data) = <(String, u32, Vec<i32>)>::deserialize(d)?;
        Ok(CustomStruct { name, age, data })
    }
}

#[test]
fn test_custom_struct() {
    let custom_data = CustomStruct {
        name: "Test Struct".to_string(),
        age: 30,
        data: vec![10, 20, 30],
    };
    roundtrip("chipa/test_struct.chipa", &custom_data);
}

#[derive(PartialEq, Debug)]
enum CustomEnum {
    A,
    B(i32),
    C { value: String },
}

impl serde::Serialize for CustomEnum {
    fn serialize<S: serde::Serializer>(&self, s: S) -> Result<S::Ok, S::Error> {
        match self {
            CustomEnum::A => (0u32, 0i32, String::new()).serialize(s),
            CustomEnum::B(x) => (1u32, *x, String::new()).serialize(s),
            CustomEnum::C { value } => (2u32, 0i32, value.clone()).serialize(s),
        }
    }
}

impl<'de> serde::Deserialize<'de> for CustomEnum {
    fn deserialize<D: serde::Deserializer<'de>>(d: D) -> Result<Self, D::Error> {
        let (tag, num, text) = <(u32, i32, String)>::deserialize(d)?;
        Ok(match tag {
            0 => CustomEnum::A,
            1 => CustomEnum::B(num),
            _ => CustomEnum::C { value: text },
        })
    }
}

#[test]
fn test_custom_enum() {
    let path = "chipa/test_enum.chipa";
    roundtrip(path, &CustomEnum::A);
    roundtrip(path, &CustomEnum::B(42));
    roundtrip(path, &CustomEnum::C { value: "hello".to_string() });
}

#[test]
fn test_write_replaces_payload() {
    let mut file = ChipaFile::new(Version::V1, &"first".to_string()).unwrap();
    file.write(&"second".to_string()).unwrap();
    let out: String = file.read().unwrap();
    assert_eq!(out, "second");
    assert_eq!(file.version(), Version::V1);
}

#[test]
fn test_truncation_rejection() {
    let err = ChipaFile::split_file(&vec![5u8]).unwrap_err();
    match err {
        ChipaError::InvalidFileFormat(m) => assert_eq!(m, "File is too small"),
        other => panic!("expected InvalidFileFormat, got {:?}", other),
    }
    let err = ChipaFile::split_file(&vec![]).unwrap_err();
    assert!(matches!(err, ChipaError::InvalidFileFormat(_)));

    // A valid length but an unrecognized version number fails closed.
    let err = ChipaFile::split_file(&vec![0u8, 9u8, 1, 2, 3]).unwrap_err();
    assert!(matches!(err, ChipaError::Decryption(_)));
    let err = ChipaFile::split_file(&vec![255u8, 255u8]).unwrap_err();
    assert!(matches!(err, ChipaError::Decryption(_)));
}

#[test]
fn test_version_codec() {
    assert_eq!(Version::V1.to_u16(), 1);
    assert_eq!(Version::V1.be_bytes(), vec![0u8, 1u8]);
    assert_eq!(Version::from_u16(1).unwrap(), Version::V1);
    assert!(matches!(Version::from_u16(0), Err(ChipaError::Decryption(_))));
    assert!(matches!(Version::from_u16(2), Err(ChipaError::Decryption(_))));
}

#[test]
fn test_extension_discipline() {
    // save: silent normalization
    assert_eq!(normalize_save_path("test"), "test.chipa");
    assert_eq!(normalize_save_path("test.txt"), "test.chipa");
    assert_eq!(normalize_save_path("test.chipa"), "test.chipa");
    assert_eq!(normalize_save_path("dir/archive.tar"), "dir/archive.chipa");
    assert_eq!(normalize_save_path(".hidden"), ".hidden.chipa");
    assert_eq!(normalize_save_path("a/b."), "a/b.chipa");
    // trailing separators are ignored, as the platform's path type does
    assert_eq!(normalize_save_path("dir/"), "dir.chipa");
    assert_eq!(normalize_save_path("a/b.txt//"), "a/b.chipa");
    assert_eq!(normalize_save_path("/"), "/");

    // load: hard rejection, before anything is read
    assert!(check_load_path("test.chipa").is_ok());
    assert!(check_load_path("dir/test.chipa").is_ok());
    assert!(check_load_path("a/x.chipa/").is_ok());
    let err = check_load_path("test.txt").unwrap_err();
    match err {
        ChipaError::InvalidFileFormat(m) => {
            assert_eq!(m, "Expected file to end with .chipa, found '\"txt\"'")
        }
        other => panic!("expected InvalidFileFormat, got {:?}", other),
    }
    let err = check_load_path("test").unwrap_err();
    match err {
        ChipaError::InvalidFileFormat(m) => {
            assert_eq!(m, "Expected file to end with .chipa, found 'none'")
        }
        other => panic!("expected InvalidFileFormat, got {:?}", other),
    }
    let err = check_load_path(".hidden").unwrap_err();
    assert!(matches!(err, ChipaError::InvalidFileFormat(_)));
}

#[test]
fn test_error_messages() {
    assert_eq!(
        ChipaError::Encode("boom".to_string()).message(),
        "Encode error, boom"
    );
    assert_eq!(
        ChipaError::FileCreation("denied".to_string()).message(),
        "File creation error, couldn't create .chipa file, denied"
    );
    assert_eq!(
        ChipaError::InvalidFileFormat("File is too small".to_string()).message(),
        "Invalid file format, File is too small"
    );
}

fn complex() -> serde_json::Value {
    serde_json::from_str(
        r#"{
        "company": {
            "name": "TechCorp Industries",
            "founded": 1995,
            "active": true,
            "stock_price": 156.78,
            "headquarters": {
                "address": "123 Innovation Way",
                "city": "Silicon Valley",
                "country": "USA",
                "coordinates": {"latitude": 37.7749, "longitude": -122.4194}
            }
        },
        "employees": [
            {
                "id": 1,
                "name": "John Doe",
                "title": "Senior Developer",
                "department": "Engineering",
                "skills": ["Rust", "Python", "DevOps"],
                "projects": [
                    {"name": "Project Alpha", "status": "completed", "duration_months": 6, "team_size": 8},
                    {"name": "Project Beta", "status": "in_progress", "duration_months": 3, "team_size": 5}
                ],
                "contact": {
                    "email": "john.doe@techcorp.com",
                    "phone": "+1-555-0123",
                    "emergency": {"name": "Jane Doe", "relationship": "spouse", "phone": "+1-555-0124"}
                }
            },
            {
                "id": 2,
                "name": "Alice Smith",
                "title": "Product Manager",
                "department": "Product",
                "skills": ["Strategy", "Agile", "Leadership"],
                "projects": [
                    {"name": "Project Gamma", "status": "planning", "duration_months": 12, "team_size": 15}
                ],
                "contact": {
                    "email": "alice.smith@techcorp.com",
                    "phone": "+1-555-0125",
                    "emergency": {"name": "Bob Smith", "relationship": "partner", "phone": "+1-555-0126"}
                }
            }
        ],
        "metrics": {
            "revenue": {"2021": 1500000.00, "2022": 2300000.00, "2023": 3100000.00},
            "growth_rate": 34.5,
            "departments": {
                "Engineering": {"headcount": 50, "budget": 5000000, "projects_completed": 12},
                "Product": {"headcount": 20, "budget": 2000000, "projects_completed": 8},
                "Marketing": {"headcount": 15, "budget": 1500000, "projects_completed": 6}
            }
        },
        "settings": {
            "notifications": {"email": true, "slack": true, "sms": false},
            "security": {
                "two_factor": true,
                "ip_whitelist": ["192.168.1.1", "10.0.0.1"],
                "allowed_domains": ["techcorp.com", "tech-corp.org"]
            },
            "system": {
                "backup_frequency": "daily",
                "retention_days": 90,
                "maintenance_windows": [
                    {"day": "Sunday", "time": "02:00", "duration": 120},
                    {"day": "Wednesday", "time": "03:00", "duration": 60}
                ]
            }
        },
        "metadata": {
            "last_updated": "2024-01-20T15:30:00Z",
            "version": "2.1.0",
            "generated_by": "system",
            "tags": ["corporate", "confidential", "2024"],
            "flags": {"beta_features": true, "maintenance_mode": false, "read_only": false}
        }
    }"#,
    )
    .unwrap()
}

#[test]
fn test_complex_json() {
    let file_path = "test_complex.chipa";
    let key = "test_key_123";

    let chipa_file = ChipaFile::new(Version::V1, &complex()).unwrap();
    let saved = save_bytes(&chipa_file, key).unwrap();
    let loaded_file = load_bytes(file_path, &saved, "test_key_123").unwrap();
    let loaded_data: serde_json::Value = loaded_file.read().unwrap();

    assert_eq!(loaded_data["company"]["name"], "TechCorp Industries");
    assert_eq!(loaded_data["employees"][0]["name"], "John Doe");
    assert_eq!(loaded_data["metrics"]["revenue"]["2023"], 3100000.00);
    assert_eq!(
        loaded_data["settings"]["security"]["ip_whitelist"][1].as_str().unwrap(),
        "10.0.0.1"
    );
    assert_eq!(
        loaded_data["employees"][1]["contact"]["emergency"]["relationship"],
        "partner"
    );

    assert_eq!(loaded_data["employees"].as_array().unwrap().len(), 2);
    assert_eq!(
        loaded_data["employees"][0]["skills"].as_array().unwrap().len(),
        3
    );

    assert_eq!(
        loaded_data["metrics"]["departments"]["Engineering"]["budget"].as_i64().unwrap(),
        5000000
    );
    assert_eq!(loaded_data["metrics"]["growth_rate"].as_f64().unwrap(), 34.5);
}

struct UnserializablePayload;

impl serde::Serialize for UnserializablePayload {
    fn serialize<S: serde::Serializer>(&self, _s: S) -> Result<S::Ok, S::Error> {
        Err(serde::ser::Error::custom("payload refuses serialization"))
    }
}

#[test]
fn test_encode_error() {
    let err = ChipaFile::new(Version::V1, &UnserializablePayload).unwrap_err();
    assert!(matches!(err, ChipaError::Encode(_)));
    assert!(err.message().starts_with("Encode error, "));

    let mut file = ChipaFile::new(Version::V1, &1u8).unwrap();
    let err = file.write(&UnserializablePayload).unwrap_err();
    assert!(matches!(err, ChipaError::Encode(_)));
    // a failed write leaves the payload as it was
    assert_eq!(file.read::<u8>().unwrap(), 1u8);
}

#[test]
fn test_decode_error() {
    // bytes that are no MessagePack string
    let file = ChipaFile::from_parts(Version::V1, vec![0xc1]);
    let err = file.read::<String>().unwrap_err();
    assert!(matches!(err, ChipaError::Decode(_)));

    // a frame too short to carry a version tag
    let err = ChipaFile::from_frame(&vec![1u8]).unwrap_err();
    assert!(matches!(err, ChipaError::Decode(_)));
    // a frame with an unknown version tag
    let err = ChipaFile::from_frame(&vec![0u8, 77u8, 1, 2]).unwrap_err();
    assert!(matches!(err, ChipaError::Decode(_)));
}

#[test]
fn test_encryption_error() {
    let file = ChipaFile::from_parts(Version::V1, vec![1, 2, 3]);
    let err = file.with_body_encrypted(Err("no key material".to_string())).unwrap_err();
    match err {
        ChipaError::Encryption(m) => assert_eq!(m, "no key material"),
        other => panic!("expected Encryption, got {:?}", other),
    }
    let err = ChipaFile::assemble_file(Version::V1, Err("scope failure".to_string())).unwrap_err();
    assert!(matches!(err, ChipaError::Encryption(_)));
}

#[test]
fn test_frame_layout() {
    // the exact byte layout: big-endian version tag, then the body
    let file = ChipaFile::from_parts(Version::V1, vec![7, 8, 9]);
    assert_eq!(file.to_frame(), vec![0u8, 1, 7, 8, 9]);
    let back = ChipaFile::from_frame(&vec![0u8, 1, 7, 8, 9]).unwrap();
    assert_eq!(back.version(), Version::V1);
    assert_eq!(back.body(), &vec![7u8, 8, 9]);

    let image = ChipaFile::assemble_file(Version::V1, Ok(vec![5, 6])).unwrap();
    assert_eq!(image, vec![0u8, 1, 5, 6]);
    let (v, rest) = ChipaFile::split_file(&image).unwrap();
    assert_eq!(v, Version::V1);
    assert_eq!(rest, vec![5u8, 6]);
}
