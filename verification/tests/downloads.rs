use base64::Engine;
use whatsapp_lite::downloads::{
    append_binary_file, bytes_from_numbers, destination_path, download_bytes, InvokeBody,
};

fn json(text: &str) -> InvokeBody {
    InvokeBody::Json(serde_json::from_str(text).unwrap())
}

#[test]
fn download_bytes_accepts_raw_and_json() {
    assert_eq!(
        download_bytes(&InvokeBody::Raw(vec![1, 2]))
            .unwrap()
            .as_ref(),
        [1, 2]
    );
    assert_eq!(
        download_bytes(&InvokeBody::Json(serde_json::Value::from(vec![3, 4])))
            .unwrap()
            .as_ref(),
        [3, 4]
    );
}

#[test]
fn every_byte_survives_either_form() {
    let all: Vec<u8> = (0..=255).collect();
    let listed = InvokeBody::Json(serde_json::Value::from(all.clone()));
    assert_eq!(download_bytes(&listed).unwrap().as_ref(), all.as_slice());
    let raw = InvokeBody::Raw(all.clone());
    assert_eq!(download_bytes(&raw).unwrap().as_ref(), all.as_slice());
    assert_eq!(download_bytes(&json("[]")).unwrap().len(), 0);
}

#[test]
fn lists_of_anything_but_bytes_are_refused() {
    for text in ["[256]", "[1, -1]", "[1.0]", "[\"1\"]", "[null]", "[[1]]"] {
        assert_eq!(
            download_bytes(&json(text)).unwrap_err(),
            "Corpo da requisicao nao contem bytes validos"
        );
    }
}

#[test]
fn json_of_another_kind_is_refused() {
    for text in ["{}", "null", "7", "\"AQI=\"", "true"] {
        assert_eq!(
            download_bytes(&json(text)).unwrap_err(),
            "Corpo da requisicao nao e binario"
        );
    }
}

#[test]
fn numbers_become_bytes() {
    assert_eq!(
        bytes_from_numbers(&[Some(0), Some(255)]).unwrap(),
        vec![0, 255]
    );
    assert!(bytes_from_numbers(&[Some(0), None]).is_err());
    assert!(bytes_from_numbers(&[Some(256)]).is_err());
}

#[test]
fn path_arrives_as_it_was_sent() {
    for path in ["/tmp/a", "C:\\Users\\José\\foto 😀.png", "", "a", "ab", "abc"] {
        let header = base64::engine::general_purpose::STANDARD.encode(path);
        assert_eq!(destination_path(Some(&header)).unwrap(), path);
    }
    assert_eq!(destination_path(Some("L3RtcC9h")).unwrap(), "/tmp/a");
}

#[test]
fn missing_path_is_refused() {
    assert_eq!(
        destination_path(None).unwrap_err(),
        "Header x-wa-path ausente"
    );
}

#[test]
fn path_that_is_not_base64_is_refused() {
    for header in ["%", "QQ", "QQ=", "QR==", "====", "QQ==QQ==", "é"] {
        let message = destination_path(Some(header)).unwrap_err();
        assert!(message.starts_with("Header x-wa-path invalido: "));
        assert!(message.len() > "Header x-wa-path invalido: ".len());
    }
    assert_eq!(
        destination_path(Some("QQ")).unwrap_err(),
        "Header x-wa-path invalido: Invalid padding"
    );
}

#[test]
fn path_that_is_not_utf8_is_refused() {
    let header = base64::engine::general_purpose::STANDARD.encode([0xff, 0xfe]);
    assert_eq!(
        destination_path(Some(&header)).unwrap_err(),
        "Caminho de destino invalido: invalid utf-8 sequence of 1 bytes from index 0"
    );
}

#[test]
fn chunk_is_refused_for_its_path_first() {
    let body = json("null");
    assert_eq!(
        append_binary_file(None, &body).unwrap_err(),
        "Header x-wa-path ausente"
    );
    assert_eq!(
        append_binary_file(Some("L3RtcC9h"), &body).unwrap_err(),
        "Corpo da requisicao nao e binario"
    );
    let body = InvokeBody::Raw(vec![9]);
    let (path, bytes) = append_binary_file(Some("L3RtcC9h"), &body).unwrap();
    assert_eq!(path, "/tmp/a");
    assert_eq!(bytes.as_ref(), [9]);
}
