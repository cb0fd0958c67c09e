use sten::{Destenable, StenError, Stenable};

type VecByte = Vec<u8>;

#[test]
fn test_sten_single_byte() {
    let mut container: Vec<u8> = vec![13; 256];
    let payload: VecByte = vec![255];
    payload.clone().sten(&mut container).unwrap();
    let new_payload = <VecByte>::desten(&container).unwrap();
    assert_eq!(new_payload, payload);
}

#[test]
fn test_sten_many_bytes() {
    let mut container: Vec<u8> = vec![13; 256];
    let payload: VecByte = vec![1, 3, 5, 7, 9];
    payload.clone().sten(&mut container).unwrap();
    let new_payload = <VecByte>::desten(&container).unwrap();
    assert_eq!(new_payload, payload);
}

#[test]
fn test_sten_string() {
    let mut container: Vec<u8> = vec![13; 256];
    let payload = String::from("Hello, Sten");
    payload.clone().sten(&mut container).unwrap();
    let new_payload = String::desten(&container).unwrap();
    assert_eq!(new_payload, payload);
}

#[test]
fn test_sten_u8() {
    let mut container: Vec<u8> = vec![13; 256];
    let payload = 100u8;
    payload.sten(&mut container).unwrap();
    let new_payload = u8::desten(&container).unwrap();
    assert_eq!(new_payload, payload);
}

#[test]
fn test_sten_u16() {
    let mut container: Vec<u8> = vec![13; 256];
    let payload = 1234u16;
    payload.sten(&mut container).unwrap();
    let new_payload = u16::desten(&container).unwrap();
    assert_eq!(new_payload, payload);
}

#[test]
fn test_sten_u32() {
    let mut container: Vec<u8> = vec![13; 256];
    let payload = 0x89ABCDEFu32;
    payload.sten(&mut container).unwrap();
    let new_payload = u32::desten(&container).unwrap();
    assert_eq!(new_payload, payload);
}

#[test]
fn test_sten_u64() {
    let mut container: Vec<u8> = vec![13; 256];
    let payload = 0x1234567890ABCDEFu64;
    payload.sten(&mut container).unwrap();
    let new_payload = u64::desten(&container).unwrap();
    assert_eq!(new_payload, payload);
}

#[test]
fn test_sten_i8() {
    let mut container: Vec<u8> = vec![13; 256];
    let payload = 100i8;
    payload.sten(&mut container).unwrap();
    let new_payload = i8::desten(&container).unwrap();
    assert_eq!(new_payload, payload);
}

#[test]
fn test_sten_i16() {
    let mut container: Vec<u8> = vec![13; 256];
    let payload = 1234i16;
    payload.sten(&mut container).unwrap();
    let new_payload = i16::desten(&container).unwrap();
    assert_eq!(new_payload, payload);
}

#[test]
fn test_sten_i32() {
    let mut container: Vec<u8> = vec![13; 256];
    let payload = 0x19ABCDEFi32;
    payload.sten(&mut container).unwrap();
    let new_payload = i32::desten(&container).unwrap();
    assert_eq!(new_payload, payload);
}

#[test]
fn test_sten_i64() {
    let mut container: Vec<u8> = vec![13; 256];
    let payload = 0x1234567890ABCDEFi64;
    payload.sten(&mut container).unwrap();
    let new_payload = i64::desten(&container).unwrap();
    assert_eq!(new_payload, payload);
}

#[test]
fn test_sten_negative_integers() {
    let mut container: Vec<u8> = vec![13; 256];
    (-100i8).sten(&mut container).unwrap();
    assert_eq!(i8::desten(&container).unwrap(), -100i8);
    (-12345i16).sten(&mut container).unwrap();
    assert_eq!(i16::desten(&container).unwrap(), -12345i16);
    (-123456789i32).sten(&mut container).unwrap();
    assert_eq!(i32::desten(&container).unwrap(), -123456789i32);
    (-1234567890123i64).sten(&mut container).unwrap();
    assert_eq!(i64::desten(&container).unwrap(), -1234567890123i64);
}

#[test]
fn test_sten_slice() {
    let mut container: Vec<u8> = vec![13; 256];
    let payload: &[u8] = &[4, 8, 15, 16, 23, 42];
    payload.sten(&mut container).unwrap();
    let new_payload = <VecByte>::desten(&container).unwrap();
    assert_eq!(new_payload, vec![4, 8, 15, 16, 23, 42]);
}

#[test]
fn test_sten_mut_slice() {
    let mut container: Vec<u8> = vec![13; 256];
    let mut data: [u8; 4] = [9, 9, 8, 7];
    let payload: &mut [u8] = &mut data;
    payload.sten(&mut container).unwrap();
    let new_payload = <VecByte>::desten(&container).unwrap();
    assert_eq!(new_payload, vec![9, 9, 8, 7]);
}

#[test]
fn test_sten_option_present() {
    let mut container: Vec<u8> = vec![13; 256];
    let payload: Option<u16> = Some(777u16);
    payload.sten(&mut container).unwrap();
    let new_payload = Option::<u16>::desten(&container).unwrap();
    assert_eq!(new_payload, Some(777u16));
}

#[test]
fn test_sten_option_absent() {
    let mut container: Vec<u8> = vec![13; 256];
    let payload: Option<u16> = None;
    payload.sten(&mut container).unwrap();
    let new_payload = Option::<u16>::desten(&container).unwrap();
    assert_eq!(new_payload, None);
}

#[test]
fn test_sten_option_empty_inner_decodes_absent() {
    // The optional codec erases its discriminant: a present value that
    // serializes to zero bytes comes back as absent.
    let mut container: Vec<u8> = vec![13; 256];
    let payload: Option<VecByte> = Some(vec![]);
    payload.sten(&mut container).unwrap();
    let new_payload = Option::<VecByte>::desten(&container).unwrap();
    assert_eq!(new_payload, None);
}

#[test]
fn test_sten_result_ok_branch() {
    let mut container: Vec<u8> = vec![13; 256];
    let payload: Result<u16, u8> = Ok(0xBEEF_u16 as u16);
    payload.sten(&mut container).unwrap();
    let new_payload = Result::<u16, u8>::desten(&container).unwrap();
    assert_eq!(new_payload, Ok(0xBEEFu16));
}

#[test]
fn test_sten_result_err_branch() {
    // One byte cannot decode as a u16, so the failure branch is recovered.
    let mut container: Vec<u8> = vec![13; 256];
    let payload: Result<u16, u8> = Err(5u8);
    payload.sten(&mut container).unwrap();
    let new_payload = Result::<u16, u8>::desten(&container).unwrap();
    assert_eq!(new_payload, Err(5u8));
}

#[test]
fn test_u8_decodes_from_first_byte() {
    // The single-byte codec reads the first byte of any non-empty payload.
    let mut container: Vec<u8> = vec![13; 256];
    let payload: VecByte = vec![1, 2, 3];
    payload.sten(&mut container).unwrap();
    assert_eq!(u8::desten(&container).unwrap(), 1u8);
}

#[test]
fn test_wrong_width_fails_parsing() {
    let mut container: Vec<u8> = vec![13; 256];
    9u8.sten(&mut container).unwrap();
    assert_eq!(u32::desten(&container), Err(StenError::FailedParsing));
}

#[test]
fn test_invalid_utf8_fails_parsing() {
    let mut container: Vec<u8> = vec![13; 256];
    let payload: VecByte = vec![0xFF, 0xFE, 0xFD];
    payload.sten(&mut container).unwrap();
    assert_eq!(String::desten(&container), Err(StenError::FailedParsing));
}
