use recfs::client::auth::RecAuth;
use recfs::client::crypt::frame;
use recfs::client::crypt::key_bytes;
use recfs::client::crypt::reversed;
use recfs::client::crypt::CryptError;
use recfs::client::crypt::CLIENTID;
use recfs::client::crypt::SIGNATURE;

#[test]
fn the_key_and_the_constants() {
    assert_eq!(key_bytes(), b"gZMlVf2ejwl0ViG4".to_vec());
    assert_eq!(reversed(&key_bytes()), b"4GiV0lwje2fVlMZg".to_vec());
    assert_eq!(reversed(&[]), Vec::<u8>::new());
    assert_eq!(reversed(&[1, 2, 3]), vec![3, 2, 1]);
    assert_eq!(CLIENTID, "d5485a8c-fecb-11e9-b690-005056b70c02");
    assert_eq!(SIGNATURE, "VZPDF6HxKyh0hhqFqY2Tk6udzlambRgK");
}

#[test]
fn a_message_is_framed_by_its_length() {
    assert_eq!(frame(b""), vec![0, 0, 0, 0]);
    assert_eq!(frame(b"hello"), vec![0, 0, 0, 5, b'h', b'e', b'l', b'l', b'o']);
    let long = vec![7u8; 0x1_02_03];
    let framed = frame(&long);
    assert_eq!(&framed[..4], &[0, 1, 2, 3]);
    assert_eq!(framed.len(), 4 + 0x1_02_03);
    assert_eq!(&framed[4..], &long[..]);
}

#[test]
fn texts_are_sealed_as_the_remote_store_expects() {
    assert_eq!(RecAuth::aes_encrypt(""), Ok("Xae13/laqeRxwWXTQ26Dwg==".to_string()));
    assert_eq!(RecAuth::aes_encrypt("hello"), Ok("njnHkeq2Mo2P/hGg9JJfjA==".to_string()));
    assert_eq!(RecAuth::aes_encrypt("é"), Ok("Ke168XrvHBBx/nNPgbaVmA==".to_string()));
    assert_eq!(
        RecAuth::aes_encrypt("AAAAAAAAAAAA{}"),
        Ok("wwa4JHVm+regXqzhZ0YSgNLCDiiHtttDoK005BovXIc=".to_string())
    );
}

#[test]
fn sealed_messages_are_opened() {
    assert_eq!(RecAuth::aes_decrypt("njnHkeq2Mo2P/hGg9JJfjA==", false), Ok("\0\0\0\u{5}hello".to_string()));
    assert_eq!(
        RecAuth::aes_decrypt("wwa4JHVm+regXqzhZ0YSgNLCDiiHtttDoK005BovXIc=", true),
        Ok("{}".to_string())
    );
    let plain = RecAuth::login_plain("{\"username\":\"u\"}");
    assert_eq!(plain, "AAAAAAAAAAAA{\"username\":\"u\"}");
    let sealed = RecAuth::aes_encrypt(&plain).unwrap();
    assert_eq!(RecAuth::aes_decrypt(&sealed, true), Ok("{\"username\":\"u\"}".to_string()));
}

#[test]
fn messages_that_cannot_be_opened_are_refused() {
    assert_eq!(RecAuth::aes_decrypt("not base64!", false), Err(CryptError::BadBase64));
    assert_eq!(RecAuth::aes_decrypt("njnHkeq2Mo2P/hGg9JJfjA==", true), Err(CryptError::TooShort));
    assert_eq!(RecAuth::aes_decrypt("", true), Err(CryptError::TooShort));
    assert_eq!(RecAuth::aes_decrypt("", false), Ok(String::new()));
    assert_eq!(RecAuth::aes_decrypt("AAAA", false), Ok(String::new()));
    let sealed = RecAuth::aes_encrypt(&"x".repeat(200)).unwrap();
    assert_eq!(RecAuth::aes_decrypt(&sealed, false), Err(CryptError::BadText));
    assert_eq!(RecAuth::aes_decrypt(&sealed, true), Ok("x".repeat(188)));
}

#[test]
fn a_login_is_signed_over_ticket_and_message() {
    assert_eq!(RecAuth::login_sign("T", "M"), "1C29670E3BE31AD71C606D715DF8CB87");
    assert_ne!(RecAuth::login_sign("T", "N"), "1C29670E3BE31AD71C606D715DF8CB87");
    assert_eq!(
        RecAuth::login_path("ticket", "1C29670E3BE31AD71C606D715DF8CB87"),
        "user/login?tempticket=ticket&sign=1C29670E3BE31AD71C606D715DF8CB87"
    );
}

#[test]
fn a_decrypted_message_is_read_as_text() {
    assert_eq!(RecAuth::plain_text(b"hello".to_vec(), false), Ok("hello".to_string()));
    assert_eq!(RecAuth::plain_text(b"0123456789abcdefrest".to_vec(), true), Ok("rest".to_string()));
    assert_eq!(RecAuth::plain_text(b"0123456789abcdef".to_vec(), true), Ok(String::new()));
    assert_eq!(RecAuth::plain_text(b"0123456789abcde".to_vec(), true), Err(CryptError::TooShort));
    assert_eq!(RecAuth::plain_text(vec![0xff], false), Err(CryptError::BadText));
    let mut headed = vec![0xffu8; 16];
    headed.extend_from_slice("é".as_bytes());
    assert_eq!(RecAuth::plain_text(headed, true), Ok("é".to_string()));
    assert_eq!(RecAuth::plain_text(vec![], false), Ok(String::new()));
}
