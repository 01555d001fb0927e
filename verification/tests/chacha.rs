use ml2_mods::chacha::{
    bytes_to_words, mix_in, mix_in_filepath, quad_rounds, quarter_round, round_pair,
    words_to_bytes, xnasamx, NasamGenerator, Spel2ChaChaVersion1, Spel2ChaChaVersion2,
};

#[test]
fn test_xnasamx() {
    let result = xnasamx(0, 20);
    assert_eq!(result, 12792988793366353668);

    let result = xnasamx(result, 32);
    assert_eq!(result, 3725411152094604090);
}

#[test]
fn test_xnasamx_generator() {
    let mut keygen = NasamGenerator::default();
    assert_eq!(keygen.get_next_key(20), 12792988793366353668);
    assert_eq!(keygen.get_next_key(32), 3725411152094604090);
}

#[test]
fn test_byte_utils() {
    let words: Vec<u32> = vec![
        1650552427, 1634626350, 1970168930, 29551, 0, 0, 0, 0, 0, 0, 0, 0, 0, 0, 0, 0,
    ];
    let bytes = words_to_bytes(&words);
    let expected_bytes: Vec<u8> = vec![
        107, 110, 97, 98, 46, 107, 110, 97, 98, 100, 110, 117, 111, 115, 0, 0, 0, 0, 0, 0, 0, 0,
        0, 0, 0, 0, 0, 0, 0, 0, 0, 0, 0, 0, 0, 0, 0, 0, 0, 0, 0, 0, 0, 0, 0, 0, 0, 0, 0, 0, 0, 0,
        0, 0, 0, 0, 0, 0, 0, 0, 0, 0, 0, 0,
    ];
    assert_eq!(bytes, expected_bytes);

    assert_eq!(bytes_to_words(&expected_bytes), words);
}

#[test]
fn test_quad_rounds() {
    let input: Vec<u8> = vec![
        107, 110, 97, 98, 46, 107, 110, 97, 98, 100, 110, 117, 111, 115, 0, 0, 0, 0, 0, 0, 0, 0,
        0, 0, 0, 0, 0, 0, 0, 0, 0, 0, 0, 0, 0, 0, 0, 0, 0, 0, 0, 0, 0, 0, 0, 0, 0, 0, 0, 0, 0, 0,
        0, 0, 0, 0, 0, 0, 0, 0, 0, 0, 0, 0,
    ];
    let expected_output: Vec<u8> = vec![
        212, 127, 188, 241, 31, 19, 122, 110, 205, 138, 55, 10, 53, 235, 26, 251, 124, 235, 133,
        204, 147, 37, 146, 229, 166, 155, 88, 181, 60, 95, 47, 187, 82, 112, 179, 220, 157, 2,
        100, 110, 46, 45, 186, 29, 108, 37, 125, 232, 54, 68, 100, 145, 93, 89, 78, 85, 235, 120,
        201, 166, 59, 150, 177, 0,
    ];
    assert_eq!(quad_rounds(&input), expected_output);
}

#[test]
fn test_quarter_rounds() {
    let mut input: Vec<u32> = vec![
        1650552427, 1634626350, 1970168930, 29551, 0, 0, 0, 0, 0, 0, 0, 0, 0, 0, 0, 0,
    ];
    let expected_output: Vec<u32> = vec![
        411534673, 1634626350, 1970168930, 29551, 3124893942, 0, 0, 0, 1532138199, 0, 0, 0,
        3974574198, 0, 0, 0,
    ];

    quarter_round(&mut input, 0, 4, 8, 12);
    assert_eq!(input, expected_output);
}

#[test]
fn test_round_pair() {
    let mut input: Vec<u32> = vec![
        1650552427, 1634626350, 1970168930, 29551, 0, 0, 0, 0, 0, 0, 0, 0, 0, 0, 0, 0,
    ];
    let expected_output: Vec<u32> = vec![
        3167643655, 236668630, 588641371, 3902845107, 2431346184, 895988070, 4273507265,
        3758282703, 2394901125, 796904404, 1277722972, 3486881271, 2607530847, 139394312,
        3283996349, 2218520832,
    ];

    round_pair(&mut input);
    assert_eq!(input, expected_output);
}

#[test]
fn test_mix_in() {
    let input: Vec<u8> = vec![0; 64];
    let input2: Vec<u8> = b"soundbank.bank".to_vec();

    let output = mix_in(&input, &input2);
    assert_eq!(
        output,
        vec![
            212, 127, 188, 241, 31, 19, 122, 110, 205, 138, 55, 10, 53, 235, 26, 251, 124, 235,
            133, 204, 147, 37, 146, 229, 166, 155, 88, 181, 60, 95, 47, 187, 82, 112, 179, 220,
            157, 2, 100, 110, 46, 45, 186, 29, 108, 37, 125, 232, 54, 68, 100, 145, 93, 89, 78,
            85, 235, 120, 201, 166, 59, 150, 177, 0
        ]
    );

    let input2: Vec<u8> = vec![b'A'; 100];
    let output = mix_in(&input, &input2);
    assert_eq!(
        output,
        vec![
            146, 39, 70, 209, 220, 37, 0, 29, 179, 43, 94, 74, 190, 68, 228, 79, 127, 144, 134,
            95, 55, 176, 95, 235, 210, 226, 88, 29, 47, 85, 28, 175, 33, 212, 238, 246, 79, 63,
            163, 102, 254, 176, 179, 134, 248, 174, 241, 35, 231, 204, 53, 181, 110, 57, 101, 125,
            65, 122, 89, 217, 181, 248, 173, 166
        ]
    );
}

#[test]
fn test_hash_filepath() {
    let chacha = Spel2ChaChaVersion1::new();
    let out = chacha.hash_filepath(&b"soundbank.bank".to_vec());
    assert_eq!(
        out,
        vec![183, 203, 129, 66, 138, 9, 175, 90, 79, 23, 201, 49, 59, 196]
    );

    let mut gen = NasamGenerator::default();
    let key = gen.get_next_key(10);
    let chacha = Spel2ChaChaVersion2::new(key);
    let out = chacha.hash_filepath(&b"soundbank.bank".to_vec());
    assert_eq!(
        out,
        vec![195, 155, 109, 179, 10, 55, 151, 210, 190, 15, 107, 118, 50, 62]
    );
}

#[test]
fn test_mix_in_filehash() {
    let input: Vec<u8> = vec![
        207, 131, 4, 64, 139, 182, 207, 58, 174, 141, 160, 97, 202, 34, 10, 250, 227, 118, 59,
        221, 247, 72, 244, 64, 21, 146, 60, 182, 145, 77, 122, 83, 190, 51, 169, 157, 162, 193,
        28, 35, 133, 93, 78, 247, 3, 197, 220, 26, 42, 145, 10, 187, 172, 0, 249, 143, 211, 176,
        42, 175, 223, 248, 213, 14,
    ];
    assert_eq!(
        mix_in_filepath(&b"soundbank.bank".to_vec(), &input),
        vec![
            174, 69, 29, 145, 46, 160, 69, 42, 87, 168, 10, 195, 164, 139, 64, 107, 234, 62, 58,
            184, 88, 26, 108, 192, 96, 101, 117, 192, 2, 194, 8, 142, 35, 19, 238, 143, 193, 96,
            147, 220, 71, 38, 138, 110, 243, 26, 97, 246, 0, 113, 126, 158, 59, 36, 173, 253, 137,
            6, 190, 176, 156, 79, 1, 106
        ]
    );
}

#[test]
fn test_decrypt_v1() {
    let chacha = Spel2ChaChaVersion1::new();
    let out = chacha.decrypt(&b"soundbank.bank".to_vec(), &b"Hello, world!".to_vec());
    assert_eq!(
        out,
        vec![26, 179, 242, 15, 166, 167, 221, 26, 174, 209, 254, 86, 24]
    );

    let out = chacha.decrypt(&b"soundbank.bank".to_vec(), &vec![b'A'; 64]);
    assert_eq!(
        out,
        vec![
            62, 189, 27, 158, 228, 154, 122, 96, 213, 155, 139, 30, 55, 25, 53, 204, 179, 1, 9,
            244, 145, 175, 160, 228, 141, 238, 3, 52, 51, 85, 18, 66, 170, 78, 177, 176, 118, 26,
            151, 181, 95, 205, 225, 23, 235, 143, 192, 217, 212, 96, 213, 19, 151, 223, 34, 136,
            202, 188, 44, 128, 226, 211, 115, 120
        ]
    );

    let out = chacha.decrypt(&b"soundbank.bank".to_vec(), &vec![b'A'; 80]);
    assert_eq!(
        out,
        vec![
            62, 189, 27, 158, 228, 154, 122, 96, 213, 155, 139, 30, 55, 25, 53, 204, 179, 1, 9,
            244, 145, 175, 160, 228, 141, 238, 3, 52, 51, 85, 18, 66, 170, 78, 177, 176, 118, 26,
            151, 181, 95, 205, 225, 23, 235, 143, 192, 217, 212, 96, 213, 19, 151, 223, 34, 136,
            202, 188, 44, 128, 226, 211, 115, 120, 212, 96, 213, 19, 151, 223, 34, 136, 202, 188,
            44, 128, 226, 211, 115, 120
        ]
    );
}

#[test]
fn test_decrypt_v2() {
    let mut gen = NasamGenerator::default();
    let key = gen.get_next_key(10);

    let chacha = Spel2ChaChaVersion2::new(key);
    let out = chacha.decrypt(&b"soundbank.bank".to_vec(), &b"Hello, world!".to_vec());
    assert_eq!(
        out,
        vec![225, 238, 172, 4, 94, 243, 170, 1, 163, 85, 34, 169, 103]
    );

    let out = chacha.decrypt(&b"soundbank.bank".to_vec(), &vec![b'A'; 64]);
    assert_eq!(
        out,
        vec![
            43, 161, 88, 42, 147, 2, 147, 189, 95, 27, 229, 80, 9, 4, 116, 80, 134, 38, 104, 81,
            203, 220, 19, 96, 255, 204, 163, 50, 233, 184, 140, 248, 119, 23, 50, 119, 208, 105,
            183, 128, 106, 254, 122, 159, 243, 172, 193, 81, 208, 78, 129, 137, 175, 103, 17, 170,
            21, 121, 31, 210, 160, 199, 24, 103
        ]
    );

    let out = chacha.decrypt(&b"soundbank.bank".to_vec(), &vec![b'A'; 80]);
    assert_eq!(
        out,
        vec![
            227, 158, 40, 253, 221, 175, 40, 54, 146, 95, 131, 246, 187, 171, 50, 212, 71, 122,
            128, 197, 247, 40, 190, 131, 204, 200, 18, 44, 58, 66, 19, 28, 115, 244, 120, 155,
            247, 173, 62, 140, 172, 124, 19, 246, 138, 91, 1, 245, 246, 132, 69, 154, 23, 153,
            186, 70, 37, 197, 84, 30, 89, 53, 111, 231, 246, 132, 69, 154, 23, 153, 186, 70, 37,
            197, 84, 30, 89, 53, 111, 231
        ]
    );
}
