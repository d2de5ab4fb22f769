use tokenized_estate::governance::types::Proposal;
use tokenized_estate::governance::types::Vote;
use tokenized_estate::records::can_store;
use tokenized_estate::records::Record;
use tokenized_estate::row::put_blob;
use tokenized_estate::row::put_num;
use tokenized_estate::row::read_blob;
use tokenized_estate::row::read_num;
use tokenized_estate::row::Row;
use tokenized_estate::text::bytes_text;
use tokenized_estate::text::copy_bytes;
use tokenized_estate::text::same_bytes;
use tokenized_estate::text::text_bytes;
use tokenized_estate::text::text_is;

fn row(nums: &[u64], blobs: &[&[u8]]) -> Row {
    Row { nums: nums.to_vec(), blobs: blobs.iter().map(|b| b.to_vec()).collect() }
}

#[test]
fn a_number_is_eight_bytes_little_endian() {
    let mut out = vec![9u8];
    put_num(&mut out, 0x0102_0304_0506_0708);
    assert_eq!(out, vec![9, 8, 7, 6, 5, 4, 3, 2, 1]);
    assert_eq!(read_num(&out, 1), Some((0x0102_0304_0506_0708, 9)));
    assert_eq!(read_num(&out, 2), None);
    assert_eq!(read_num(&out, 9), None);
}

#[test]
fn a_byte_string_stands_behind_its_length() {
    let mut out = Vec::new();
    put_blob(&mut out, &vec![0xAA, 0xBB, 0xCC]);
    assert_eq!(out, vec![3, 0, 0, 0, 0, 0, 0, 0, 0xAA, 0xBB, 0xCC]);
    assert_eq!(read_blob(&out, 0), Some((vec![0xAA, 0xBB, 0xCC], 11)));
    out.pop();
    assert_eq!(read_blob(&out, 0), None);
}

#[test]
fn the_bytes_of_a_row_are_counts_numbers_and_byte_strings() {
    let r = row(&[1, 258], &[b"ab", b""]);
    let bytes = r.encode();
    let expected: Vec<u8> = vec![
        2, 0, 0, 0, 0, 0, 0, 0, // two numbers
        1, 0, 0, 0, 0, 0, 0, 0, //
        2, 1, 0, 0, 0, 0, 0, 0, //
        2, 0, 0, 0, 0, 0, 0, 0, // two byte strings
        2, 0, 0, 0, 0, 0, 0, 0, b'a', b'b', //
        0, 0, 0, 0, 0, 0, 0, 0,
    ];
    assert_eq!(bytes, expected);
}

#[test]
fn a_row_is_read_back_from_its_bytes() {
    let rows = [
        row(&[], &[]),
        row(&[0], &[]),
        row(&[], &[b""]),
        row(&[u64::MAX, 0, 7], &[b"\x00\xff", b"", b"hello world"]),
    ];
    for r in rows {
        let back = Row::decode(&r.encode()).unwrap();
        assert_eq!(back.nums, r.nums);
        assert_eq!(back.blobs, r.blobs);
    }
}

#[test]
fn bytes_that_are_no_row_are_refused() {
    let good = row(&[5, 6], &[b"xyz"]).encode();
    assert!(Row::decode(&good).is_some());
    // cut short anywhere
    for n in 0..good.len() {
        assert!(Row::decode(&good[..n].to_vec()).is_none(), "prefix of {} bytes", n);
    }
    // a byte too many
    let mut long = good.clone();
    long.push(0);
    assert!(Row::decode(&long).is_none());
    // a count far beyond what follows
    let mut huge = good.clone();
    huge[7] = 0xFF;
    assert!(Row::decode(&huge).is_none());
    // a length beyond what follows
    let mut far = good.clone();
    far[32] = 4;
    assert!(Row::decode(&far).is_none());
    assert!(Row::decode(&Vec::new()).is_none());
}

#[test]
fn text_is_stored_as_utf8() {
    assert_eq!(text_bytes(&"aé€".to_string()), vec![0x61, 0xC3, 0xA9, 0xE2, 0x82, 0xAC]);
    assert_eq!(bytes_text(&vec![0x61, 0xC3, 0xA9, 0xE2, 0x82, 0xAC]), Some("aé€".to_string()));
    assert_eq!(bytes_text(&Vec::new()), Some(String::new()));
}

#[test]
fn bytes_that_are_no_utf8_are_no_text() {
    assert_eq!(bytes_text(&vec![0xFF]), None);
    assert_eq!(bytes_text(&vec![0xC3]), None);
    assert_eq!(bytes_text(&vec![0x61, 0x80]), None);
    assert_eq!(bytes_text(&vec![0xED, 0xA0, 0x80]), None);
    assert_eq!(bytes_text(&vec![0xC0, 0x80]), None);
}

#[test]
fn bytes_are_compared_and_copied_whole() {
    assert!(same_bytes(&vec![], &vec![]));
    assert!(same_bytes(&vec![1, 2, 3], &vec![1, 2, 3]));
    assert!(!same_bytes(&vec![1, 2, 3], &vec![1, 2]));
    assert!(!same_bytes(&vec![1, 2, 3], &vec![1, 2, 4]));
    assert!(!same_bytes(&vec![0, 2, 3], &vec![1, 2, 3]));
    assert_eq!(copy_bytes(&vec![4, 5, 6]), vec![4, 5, 6]);
    assert!(text_is(&"active".to_string(), "active"));
    assert!(!text_is(&"Active".to_string(), "active"));
    assert!(!text_is(&"activ".to_string(), "active"));
}

fn proposal() -> Proposal {
    Proposal {
        id: 3,
        property_id: 4,
        title: "t".to_string(),
        description: "dé".to_string(),
        proposal_type: "sale".to_string(),
        proposer: vec![1, 2],
        votes_for: 5,
        votes_against: 6,
        voting_power_for: 7,
        voting_power_against: 8,
        status: "passed".to_string(),
        created_at: 9,
        voting_deadline: 10,
        execution_data: Some("x".to_string()),
    }
}

#[test]
fn a_proposal_is_read_back_from_its_row() {
    let p = proposal();
    let r = p.to_row();
    assert_eq!(r.nums, vec![3, 4, 5, 6, 7, 8, 9, 10, 1]);
    assert_eq!(
        r.blobs,
        vec![
            b"t".to_vec(),
            vec![b'd', 0xC3, 0xA9],
            b"sale".to_vec(),
            vec![1, 2],
            b"passed".to_vec(),
            b"x".to_vec()
        ]
    );
    assert_eq!(Proposal::from_row(&r), Some(p.clone()));
    assert_eq!(p.duplicate(), p);

    let q = Proposal { execution_data: None, ..p };
    let r = q.to_row();
    assert_eq!(r.nums[8], 0);
    assert_eq!(r.blobs[5], Vec::<u8>::new());
    assert_eq!(Proposal::from_row(&r), Some(q));
}

#[test]
fn a_row_that_is_no_proposal_is_refused() {
    let good = proposal().to_row();
    let mut r = proposal().to_row();
    r.nums.pop();
    assert_eq!(Proposal::from_row(&r), None);
    let mut r = proposal().to_row();
    r.blobs.push(Vec::new());
    assert_eq!(Proposal::from_row(&r), None);
    let mut r = proposal().to_row();
    r.nums[8] = 2;
    assert_eq!(Proposal::from_row(&r), None);
    let mut r = proposal().to_row();
    r.nums[8] = 0;
    assert_eq!(Proposal::from_row(&r), None);
    let mut r = proposal().to_row();
    r.blobs[0] = vec![0xFF];
    assert_eq!(Proposal::from_row(&r), None);
    let mut r = proposal().to_row();
    r.blobs[3] = vec![0xFF];
    assert!(Proposal::from_row(&r).is_some());
    assert!(Proposal::from_row(&good).is_some());
    assert_eq!(Vote::from_row(&good), None);
}

#[test]
fn a_vote_is_read_back_from_its_row() {
    let v = Vote {
        id: 1,
        proposal_id: 2,
        voter: vec![9, 9],
        vote_power: 3,
        vote_choice: true,
        timestamp: 4,
    };
    let r = v.to_row();
    assert_eq!(r.nums, vec![1, 2, 3, 1, 4]);
    assert_eq!(r.blobs, vec![vec![9, 9]]);
    assert_eq!(Vote::from_row(&r), Some(v.clone()));
    assert_eq!(v.duplicate(), v);
    let against = Vote { vote_choice: false, ..v };
    assert_eq!(against.to_row().nums[3], 0);
    assert_eq!(Vote::from_row(&against.to_row()), Some(against));
    let mut bad = v_row_with_choice(2);
    assert_eq!(Vote::from_row(&bad), None);
    bad.nums[3] = 1;
    assert!(Vote::from_row(&bad).is_some());
}

fn v_row_with_choice(choice: u64) -> Row {
    Row { nums: vec![1, 2, 3, choice, 4], blobs: vec![vec![]] }
}

#[test]
fn records_of_ordinary_size_can_be_stored() {
    assert!(can_store(&proposal()));
    let big = Proposal { description: "d".repeat(1 << 20), ..proposal() };
    assert!(can_store(&big));
}
