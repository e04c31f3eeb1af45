use formana::address::{derive_address, form_address, submission_address};
use solana_program::pubkey::Pubkey;

fn outside(seeds: &[&[u8]], program: &[u8; 32]) -> Option<([u8; 32], u8)> {
    Pubkey::try_find_program_address(seeds, &Pubkey::new_from_array(*program))
        .map(|(address, bump)| (address.to_bytes(), bump))
}

#[test]
fn documented_example_address() {
    // The system program and the seed "helloWorld": a published example.
    let program = [0u8; 32];
    let seeds: [&[u8]; 1] = [b"helloWorld"];
    let (address, bump) = derive_address(&seeds, &program).unwrap();
    assert_eq!(bump, 254);
    assert_eq!(
        address,
        [
            45, 236, 145, 150, 214, 136, 253, 173, 176, 164, 64, 165, 73, 186, 6, 115, 23, 39, 102,
            78, 239, 109, 91, 178, 118, 20, 244, 122, 28, 49, 41, 40
        ]
    );
    assert_eq!(
        Pubkey::new_from_array(address).to_string(),
        "46GZzzetjCURsdFPb7rcnspbEMnCBXe9kpjrsZAkKb6X"
    );
}

#[test]
fn derived_address_is_neither_seed_nor_program() {
    let program = [7u8; 32];
    let creator = [1u8; 32];
    let seeds: [&[u8]; 2] = [&creator, b"poll-1"];
    let (address, _) = derive_address(&seeds, &program).unwrap();
    assert_ne!(address, program);
    assert_ne!(address, creator);
    assert!(!Pubkey::new_from_array(address).is_on_curve());
}

#[test]
fn derive_is_repeatable() {
    let program = [7u8; 32];
    let creator = [1u8; 32];
    let seeds: [&[u8]; 2] = [&creator, b"poll-1"];
    let first = derive_address(&seeds, &program);
    let second = derive_address(&seeds, &program);
    assert!(first.is_some());
    assert_eq!(first, second);
}

#[test]
fn derive_agrees_with_the_outside_search() {
    let programs = [[0u8; 32], [7u8; 32], [255u8; 32]];
    let long = [9u8; 32];
    let cases: Vec<Vec<&[u8]>> = vec![
        vec![],
        vec![b""],
        vec![b"a"],
        vec![b"a", b"b"],
        vec![b"ab"],
        vec![&long, b"poll-1"],
        vec![&long, b"poll-1", b"submissions"],
        vec![&long, &long, &long, &long],
    ];
    for program in programs.iter() {
        for seeds in cases.iter() {
            assert_eq!(derive_address(seeds, program), outside(seeds, program));
            assert!(derive_address(seeds, program).is_some());
        }
    }
    for i in 0..60u8 {
        let seed = [i, i.wrapping_mul(3), 5];
        let seeds: [&[u8]; 2] = [&seed, b"x"];
        assert_eq!(derive_address(&seeds, &[i; 32]), outside(&seeds, &[i; 32]));
    }
}

#[test]
fn bumps_below_the_first_are_not_taken() {
    // Among many inputs some need a bump under 255; the result is still the
    // outside one, and its bump is never 0.
    let mut below = 0;
    for i in 0..200u8 {
        let seed = [i];
        let seeds: [&[u8]; 1] = [&seed];
        let (address, bump) = derive_address(&seeds, &[3u8; 32]).unwrap();
        assert!(bump >= 1);
        if bump < 255 {
            below += 1;
        }
        let bump_seed = [bump];
        let with_bump: [&[u8]; 2] = [&seed, &bump_seed];
        let hashed =
            Pubkey::create_program_address(&with_bump, &Pubkey::new_from_array([3u8; 32])).unwrap();
        assert_eq!(hashed.to_bytes(), address);
        for higher in (bump as u16 + 1)..=255 {
            let bump_seed = [higher as u8];
            let with_bump: [&[u8]; 2] = [&seed, &bump_seed];
            assert!(Pubkey::create_program_address(
                &with_bump,
                &Pubkey::new_from_array([3u8; 32])
            )
            .is_err());
        }
    }
    assert!(below > 0);
}

#[test]
fn a_seed_over_thirty_two_bytes_derives_nothing() {
    let long = [1u8; 33];
    let seeds: [&[u8]; 1] = [&long];
    assert_eq!(derive_address(&seeds, &[7u8; 32]), None);
    let at_limit = [1u8; 32];
    let seeds: [&[u8]; 1] = [&at_limit];
    assert!(derive_address(&seeds, &[7u8; 32]).is_some());
}

#[test]
fn sixteen_seeds_derive_nothing() {
    let seeds: Vec<&[u8]> = vec![b"s"; 16];
    assert_eq!(derive_address(&seeds, &[7u8; 32]), None);
    let seeds: Vec<&[u8]> = vec![b"s"; 15];
    assert!(derive_address(&seeds, &[7u8; 32]).is_some());
    assert_eq!(derive_address(&seeds, &[7u8; 32]), outside(&seeds, &[7u8; 32]));
}

#[test]
fn form_address_is_derived_from_creator_and_code() {
    let program = [7u8; 32];
    let creator = [1u8; 32];
    let seeds: [&[u8]; 2] = [&creator, b"poll-1"];
    assert_eq!(form_address(&creator, "poll-1", &program), outside(&seeds, &program));
    assert_eq!(
        form_address(&creator, "poll-1", &program),
        Some((
            [
                127, 118, 222, 132, 180, 38, 229, 78, 248, 243, 107, 216, 234, 5, 51, 229, 253, 236,
                190, 238, 4, 157, 100, 212, 127, 188, 4, 236, 183, 122, 135, 210
            ],
            254
        ))
    );
}

#[test]
fn submission_address_is_derived_from_author_code_and_word() {
    let program = [7u8; 32];
    let author = [2u8; 32];
    let seeds: [&[u8]; 3] = [&author, b"poll-1", b"submissions"];
    assert_eq!(submission_address(&author, "poll-1", &program), outside(&seeds, &program));
    assert_eq!(
        submission_address(&author, "poll-1", &program),
        Some((
            [
                144, 58, 166, 220, 254, 108, 72, 60, 210, 141, 231, 29, 90, 117, 61, 206, 42, 122,
                209, 235, 195, 195, 46, 163, 219, 55, 7, 47, 218, 73, 199, 111
            ],
            254
        ))
    );
}

#[test]
fn different_identities_derive_different_addresses() {
    let program = [7u8; 32];
    let a = form_address(&[1u8; 32], "poll-1", &program).unwrap().0;
    let b = form_address(&[1u8; 32], "poll-2", &program).unwrap().0;
    let c = form_address(&[2u8; 32], "poll-1", &program).unwrap().0;
    let d = form_address(&[1u8; 32], "poll-1", &[8u8; 32]).unwrap().0;
    let e = submission_address(&[1u8; 32], "poll-1", &program).unwrap().0;
    let all = [a, b, c, d, e];
    for i in 0..all.len() {
        for j in 0..all.len() {
            assert_eq!(all[i] == all[j], i == j);
        }
    }
}

#[test]
fn a_code_over_thirty_two_bytes_has_no_address() {
    let code = "c".repeat(33);
    assert_eq!(form_address(&[1u8; 32], &code, &[7u8; 32]), None);
    assert_eq!(submission_address(&[1u8; 32], &code, &[7u8; 32]), None);
    let code = "c".repeat(32);
    assert!(form_address(&[1u8; 32], &code, &[7u8; 32]).is_some());
}
