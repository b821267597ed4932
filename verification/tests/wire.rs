use with_daemon::wire::{
    decode_pids, decode_words, encode_pids, encode_words, push_word, word_at,
};

#[test]
fn words_are_sent_highest_byte_first() {
    let mut bytes = vec![9];
    push_word(&mut bytes, 0x0102_0304);
    assert_eq!(bytes, vec![9, 1, 2, 3, 4]);
    assert_eq!(word_at(&bytes, 1), 0x0102_0304);
}

#[test]
fn words_come_back_as_they_were_sent() {
    let words = vec![0, 1, 0xffff_ffff, 0x8000_0000, 0x1234_5678];
    assert_eq!(decode_words(&encode_words(&words)), words);
}

#[test]
fn incomplete_word_does_not_count() {
    let mut bytes = encode_words(&[7, 8]);
    bytes.push(1);
    bytes.push(2);
    bytes.push(3);
    assert_eq!(decode_words(&bytes), vec![7, 8]);
    assert_eq!(decode_words(&[1, 2, 3]), Vec::<u32>::new());
}

#[test]
fn pids_are_sent_in_twos_complement() {
    assert_eq!(encode_pids(&[1, -1]), vec![0, 0, 0, 1, 255, 255, 255, 255]);
    assert_eq!(encode_pids(&[i32::MIN]), vec![0x80, 0, 0, 0]);
}

#[test]
fn pids_come_back_as_they_were_sent() {
    let pids = vec![1, 0, -1, 4242, i32::MAX, i32::MIN];
    let mut bytes = encode_pids(&pids);
    assert_eq!(decode_pids(&bytes), pids);
    bytes.push(0);
    assert_eq!(decode_pids(&bytes), pids);
}

#[test]
fn bytes_are_those_of_the_standard_conversions() {
    for pid in [0, 1, -2, 65536, -65536, i32::MAX, i32::MIN] {
        assert_eq!(encode_pids(&[pid]), pid.to_be_bytes().to_vec());
    }
    let load: f32 = 0.375;
    assert_eq!(encode_words(&[load.to_bits()]), load.to_be_bytes().to_vec());
}
