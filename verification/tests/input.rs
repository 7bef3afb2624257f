use sbpf_debugger::input::{
    generate, hex_encode, name_output_file, output_directory, prepare_accounts,
    serialize_parameters, Account, AccountMeta, DebuggerInputError, Instruction, Pubkey,
    SerializeAccount, Serializer, SolAccount,
};
use solana_sdk::pubkey::Pubkey as SdkPubkey;

fn unique_key() -> Pubkey {
    Pubkey { bytes: SdkPubkey::new_unique().to_bytes() }
}

fn key(tag: u8) -> Pubkey {
    Pubkey { bytes: [tag; 32] }
}

fn meta(pubkey: Pubkey, is_signer: bool) -> AccountMeta {
    AccountMeta { pubkey, is_signer, is_writable: true }
}

fn meta_readonly(pubkey: Pubkey, is_signer: bool) -> AccountMeta {
    AccountMeta { pubkey, is_signer, is_writable: false }
}

fn provided(lamports: u64, data: Vec<u8>, owner: Pubkey) -> SolAccount {
    SolAccount { lamports, data, owner, executable: false, rent_epoch: 0 }
}

fn decode_hex(text: &str) -> Vec<u8> {
    assert_eq!(text.len() % 2, 0);
    (0..text.len() / 2)
        .map(|i| u8::from_str_radix(&text[2 * i..2 * i + 2], 16).unwrap())
        .collect()
}

fn padding(len: usize) -> usize {
    (16 - len % 16) % 16
}

fn u64_at(bytes: &[u8], at: usize) -> u64 {
    let mut b = [0u8; 8];
    b.copy_from_slice(&bytes[at..at + 8]);
    u64::from_le_bytes(b)
}

#[test]
fn test_serialize_parameters() {
    let program_id = unique_key();
    let owner_pubkey = unique_key();
    let vault_pda = unique_key();
    let system_program = unique_key();

    let instruction = Instruction {
        program_id,
        data: vec![1, 2, 3, 4],
        accounts: vec![
            meta(owner_pubkey, true),
            meta(vault_pda, false),
            meta_readonly(system_program, false),
        ],
    };

    let accounts = vec![
        (owner_pubkey, provided(10, vec![1, 2, 3], unique_key())),
        (vault_pda, provided(0, vec![], unique_key())),
        (system_program, provided(0, vec![], unique_key())),
    ];

    let result = generate(&instruction, &accounts, "test_output.hex");
    assert!(result.is_ok());
}

#[test]
fn test_serialize_parameters_with_duplicates() {
    let program_id = unique_key();
    let owner_pubkey = unique_key();
    let vault_pda = unique_key();

    let instruction = Instruction {
        program_id,
        data: vec![1, 2, 3, 4],
        accounts: vec![
            meta(owner_pubkey, true),
            meta(vault_pda, false),
            meta(owner_pubkey, true),
            meta(vault_pda, false),
        ],
    };

    let accounts = vec![
        (owner_pubkey, provided(1, vec![9, 9], unique_key())),
        (vault_pda, provided(2, vec![8, 8], unique_key())),
    ];

    let result = generate(&instruction, &accounts, "test_duplicates.hex");
    assert!(result.is_ok());
}

#[test]
fn three_distinct_accounts_have_the_expected_length() {
    let program_id = key(9);
    let (a, b, c) = (key(1), key(2), key(3));
    let instruction = Instruction {
        program_id,
        data: vec![1, 2, 3, 4],
        accounts: vec![meta(a, true), meta(b, false), meta_readonly(c, false)],
    };
    let accounts = vec![
        (a, provided(10, vec![1, 2, 3], key(4))),
        (b, provided(0, vec![], key(5))),
        (c, provided(0, vec![], key(6))),
    ];
    let entries = prepare_accounts(&instruction.accounts, &accounts).unwrap();
    let bytes = serialize_parameters(entries, &instruction.data, &program_id).unwrap();

    let mut expected = 8;
    for d in [3usize, 0, 0] {
        let before_padding = expected + 1 + 3 + 4 + 32 + 32 + 8 + 8 + d + 10240;
        expected = before_padding + padding(before_padding) + 8;
    }
    expected += 8 + 4 + 32;
    assert_eq!(bytes.len(), expected);
    assert_eq!(bytes.len(), 31076);
    assert_eq!(u64_at(&bytes, 0), 3);
    assert_eq!(bytes[8], 0xff);
    // flags of the first account, four bytes of padding, key and owner
    assert_eq!(&bytes[9..12], &[1, 1, 0]);
    assert_eq!(&bytes[12..16], &[0, 0, 0, 0]);
    assert_eq!(&bytes[16..48], &[1u8; 32]);
    assert_eq!(&bytes[48..80], &[4u8; 32]);
    assert_eq!(u64_at(&bytes, 80), 10);
    assert_eq!(u64_at(&bytes, 88), 3);
    assert_eq!(&bytes[96..99], &[1, 2, 3]);
    assert!(bytes[99..10352].iter().all(|b| *b == 0));
    // the third account is read-only and no signer
    assert_eq!(bytes[20696], 0xff);
    assert_eq!(&bytes[20697..20700], &[0, 0, 0]);
    // instruction data and program id close the region
    assert_eq!(u64_at(&bytes, 31032), 4);
    assert_eq!(&bytes[31040..31044], &[1, 2, 3, 4]);
    assert_eq!(&bytes[31044..31076], &[9u8; 32]);
}

#[test]
fn rent_epoch_follows_a_multiple_of_sixteen() {
    for len in [0usize, 1, 2, 3, 7, 8, 15, 16, 17, 100] {
        let account = Account::new(key(1), key(2), 5, vec![7; len], false, true, false, 0x1122);
        let entries = vec![SerializeAccount::Duplicate(0), SerializeAccount::Account(1, account)];
        let bytes = serialize_parameters(entries, &[], &key(3)).unwrap();
        let data_end = 8 + 8 + 88 + len + 10240;
        let rent_at = data_end + padding(data_end);
        assert_eq!(rent_at % 16, 0);
        assert_eq!(u64_at(&bytes, rent_at), 0x1122);
        assert_eq!(bytes.len(), rent_at + 8 + 8 + 0 + 32);
    }
}

#[test]
fn duplicates_become_references() {
    let program_id = key(0x77);
    let (a, b) = (key(0xa), key(0xb));
    let metas = vec![meta(a, true), meta(b, false), meta(a, true), meta(b, false)];
    let accounts = vec![(a, provided(1, vec![9, 9], key(4))), (b, provided(2, vec![8, 8], key(5)))];
    let entries = prepare_accounts(&metas, &accounts).unwrap();
    assert_eq!(entries.len(), 4);
    assert!(matches!(&entries[0], SerializeAccount::Account(0, acc) if acc.key == a));
    assert!(matches!(&entries[1], SerializeAccount::Account(1, acc) if acc.key == b));
    assert_eq!(entries[2], SerializeAccount::Duplicate(0));
    assert_eq!(entries[3], SerializeAccount::Duplicate(1));

    let bytes = serialize_parameters(entries, &[1, 2, 3, 4], &program_id).unwrap();
    assert_eq!(u64_at(&bytes, 0), 4);
    assert_eq!(bytes[8], 0xff);
    assert_eq!(bytes[10360], 0xff);
    assert_eq!(&bytes[20712..20720], &[0, 0, 0, 0, 0, 0, 0, 0]);
    assert_eq!(&bytes[20720..20728], &[1, 0, 0, 0, 0, 0, 0, 0]);
    assert_eq!(u64_at(&bytes, 20728), 4);
    assert_eq!(bytes.len(), 20772);
    // the data of the two accounts stand once each
    let nines = bytes.windows(2).filter(|w| *w == [9, 9]).count();
    let eights = bytes.windows(2).filter(|w| *w == [8, 8]).count();
    assert_eq!((nines, eights), (1, 1));
}

#[test]
fn the_last_account_provided_for_a_key_counts() {
    let a = key(1);
    let metas = vec![meta(a, false)];
    let accounts = vec![(a, provided(1, vec![1], key(4))), (a, provided(2, vec![2, 2], key(5)))];
    let entries = prepare_accounts(&metas, &accounts).unwrap();
    match &entries[0] {
        SerializeAccount::Account(0, account) => {
            assert_eq!(account.lamports, 2);
            assert_eq!(account.data, vec![2, 2]);
            assert_eq!(account.owner, key(5));
            assert!(account.is_writable && !account.is_signer);
        }
        other => panic!("unexpected entry {:?}", other),
    }
}

#[test]
fn missing_account_is_reported_with_its_key() {
    let (a, k) = (key(1), key(7));
    let instruction = Instruction {
        program_id: key(9),
        data: vec![],
        accounts: vec![meta(a, true), meta(k, false), meta(key(8), false)],
    };
    let accounts = vec![(a, provided(1, vec![], key(4)))];
    assert_eq!(
        prepare_accounts(&instruction.accounts, &accounts),
        Err(DebuggerInputError::MissingAccount(k))
    );
    assert_eq!(
        generate(&instruction, &accounts, "missing"),
        Err(DebuggerInputError::MissingAccount(k))
    );
}

#[test]
fn a_duplicate_needs_no_account_of_its_own() {
    let a = key(1);
    let metas = vec![meta(a, true), meta(a, false)];
    let accounts = vec![(a, provided(1, vec![], key(4)))];
    let entries = prepare_accounts(&metas, &accounts).unwrap();
    assert_eq!(entries[1], SerializeAccount::Duplicate(0));
}

#[test]
fn hex_file_reads_back_as_the_bytes() {
    assert_eq!(hex_encode(&[]), "\n");
    assert_eq!(hex_encode(&[0x00, 0xff, 0x1a, 0x09, 0xa0]), "00ff1a09a0\n");

    let a = key(0x5a);
    let instruction =
        Instruction { program_id: key(0xc3), data: vec![0xde, 0xad], accounts: vec![meta(a, true)] };
    let accounts = vec![(a, provided(u64::MAX, vec![0x0f, 0xf0], key(0x11)))];
    let file = generate(&instruction, &accounts, "round_trip").unwrap();
    let entries = prepare_accounts(&instruction.accounts, &accounts).unwrap();
    let bytes = serialize_parameters(entries, &instruction.data, &instruction.program_id).unwrap();

    assert!(file.contents.ends_with('\n'));
    let body = &file.contents[..file.contents.len() - 1];
    assert!(!body.contains('\n'));
    assert!(body.chars().all(|c| c.is_ascii_digit() || ('a'..='f').contains(&c)));
    assert_eq!(decode_hex(body), bytes);
}

#[test]
fn output_name_gets_an_extension_unless_it_has_one() {
    assert_eq!(name_output_file("sample_input", false), "sample_input.hex");
    assert_eq!(name_output_file("test_output.hex", true), "test_output.hex");
    assert_eq!(output_directory(), ".dbg");

    let instruction = Instruction { program_id: key(9), data: vec![], accounts: vec![] };
    assert_eq!(generate(&instruction, &[], "sample_input").unwrap().name, "sample_input.hex");
    assert_eq!(generate(&instruction, &[], "test_output.hex").unwrap().name, "test_output.hex");
    assert_eq!(generate(&instruction, &[], "input.bin").unwrap().name, "input.bin");
}

#[test]
fn integers_are_written_little_endian() {
    let mut s = Serializer::new();
    s.write_u64(0x0102030405060708);
    s.write_u8(0xab);
    s.write_all(&[1, 2]);
    s.write_u64(u64::MAX);
    s.write_u64(0);
    assert_eq!(
        s.finish(),
        vec![
            8, 7, 6, 5, 4, 3, 2, 1, 0xab, 1, 2, 0xff, 0xff, 0xff, 0xff, 0xff, 0xff, 0xff, 0xff, 0,
            0, 0, 0, 0, 0, 0, 0
        ]
    );
}

#[test]
fn account_data_is_followed_by_headroom_and_padding() {
    let mut s = Serializer::new();
    s.write_all(&[1, 1, 1]);
    s.write_account_data(&[5, 6]);
    let bytes = s.finish();
    assert_eq!(bytes.len(), 10256);
    assert_eq!(&bytes[..5], &[1, 1, 1, 5, 6]);
    assert!(bytes[5..].iter().all(|b| *b == 0));

    let mut aligned = Serializer::new();
    aligned.write_account_data(&[0; 16]);
    assert_eq!(aligned.finish().len(), 10256);
}

#[test]
fn an_empty_instruction_is_a_count_a_length_and_the_program_id() {
    let bytes = serialize_parameters(vec![], &[], &key(0x42)).unwrap();
    let mut expected = vec![0u8; 16];
    expected.extend_from_slice(&[0x42; 32]);
    assert_eq!(bytes, expected);
}

#[test]
fn reference_positions_are_narrowed_to_a_byte() {
    let mut metas: Vec<AccountMeta> = (0..=256u32)
        .map(|i| {
            let mut bytes = [0u8; 32];
            bytes[..4].copy_from_slice(&i.to_le_bytes());
            meta(Pubkey { bytes }, false)
        })
        .collect();
    let accounts: Vec<(Pubkey, SolAccount)> =
        metas.iter().map(|m| (m.pubkey, provided(0, vec![], key(1)))).collect();
    metas.push(metas[3]);
    metas.push(metas[256]);
    let entries = prepare_accounts(&metas, &accounts).unwrap();
    assert_eq!(entries[257], SerializeAccount::Duplicate(3));
    assert_eq!(entries[258], SerializeAccount::Duplicate(0));
}
