use whatsapp_lite::patches::{whatsapp_patches_script, LOGO_PLACEHOLDER};

#[test]
fn logo_goes_into_the_script() {
    let script = format!("const a = \"data:{LOGO_PLACEHOLDER}\"; // é");
    assert_eq!(
        whatsapp_patches_script(&script, b"foobar"),
        "const a = \"data:Zm9vYmFy\"; // é"
    );
    assert_eq!(
        whatsapp_patches_script(&script, b"fooba"),
        "const a = \"data:Zm9vYmE=\"; // é"
    );
    assert_eq!(
        whatsapp_patches_script(&script, b"foob"),
        "const a = \"data:Zm9vYg==\"; // é"
    );
    assert_eq!(whatsapp_patches_script(&script, b""), "const a = \"data:\"; // é");
}

#[test]
fn every_character_of_the_alphabet_is_used() {
    let bytes: Vec<u8> = (0..64u32)
        .collect::<Vec<u32>>()
        .chunks(4)
        .flat_map(|q| {
            let n = (q[0] << 18) | (q[1] << 12) | (q[2] << 6) | q[3];
            [(n >> 16) as u8, (n >> 8) as u8, n as u8]
        })
        .collect();
    assert_eq!(
        whatsapp_patches_script(LOGO_PLACEHOLDER, &bytes),
        "ABCDEFGHIJKLMNOPQRSTUVWXYZabcdefghijklmnopqrstuvwxyz0123456789+/"
    );
}

#[test]
fn script_without_a_placeholder_stays() {
    assert_eq!(whatsapp_patches_script("x();", b"foo"), "x();");
    assert_eq!(
        whatsapp_patches_script("__WA_LITE_LOGO_B64__ __WA_LITE_LOGO_B64__", b"foo"),
        "Zm9v Zm9v"
    );
}
