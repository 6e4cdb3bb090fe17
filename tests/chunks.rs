use bio_streams::chunker::{chunks, first_index_of, split_chunks, Chunker, Delim};

fn fasta_delim() -> Delim<'static> {
    Delim::new(b">", false)
}

fn embl_delim() -> Delim<'static> {
    Delim::new(b"//\n", true)
}

/// Feeds all of `input` at once, ends the input and takes the first chunk.
fn first_chunk(input: &[u8], delim: &Delim) -> Option<Vec<u8>> {
    let mut ci = chunks(delim);
    ci.feed(input);
    ci.finish();
    ci.next_chunk()
}

/// Feeds `input` in pieces of `piece` bytes, taking chunks as they complete.
fn chunks_in_pieces(input: &[u8], delim: &Delim, piece: usize) -> Vec<Vec<u8>> {
    let mut ci: Chunker = chunks(delim);
    let mut out = Vec::new();
    for part in input.chunks(piece) {
        ci.feed(part);
        while let Some(c) = ci.next_chunk() {
            out.push(c);
        }
    }
    ci.finish();
    while let Some(c) = ci.next_chunk() {
        out.push(c);
    }
    assert!(ci.is_done());
    out
}

#[test]
fn test_first_index_of() {
    assert_eq!(first_index_of(b"x", b""), None);
    assert_eq!(first_index_of(b"x", b"x"), Some(0));
    assert_eq!(first_index_of(b"la", b"this is largely rubbish"), Some(8));
}

#[test]
fn test_empty() {
    let delim = fasta_delim();
    match first_chunk(b"", &delim) {
        None => {}
        Some(e) => panic!("Expected no chunks from an empty input, but got {:?}", e),
    }
}

#[test]
fn test_one_undelimited_marks_start() {
    let delim = fasta_delim();
    let input: &[u8] = b"some\nstuff\ngoes\nhere";
    match first_chunk(input, &delim) {
        None => panic!("Expected a chunk but got none"),
        Some(c) => assert_eq!(c, input),
    }
}

#[test]
fn test_one_undelimited_marks_end() {
    let delim = embl_delim();
    let input: &[u8] = b"some\nstuff\ngoes\nhere";
    match first_chunk(input, &delim) {
        None => panic!("Expected a chunk but got none"),
        Some(c) => assert_eq!(c, input),
    }
}

#[test]
fn test_one_delimited_marks_start() {
    let delim = fasta_delim();
    let input: &[u8] = b">some\nstuff\ngoes\nhere";
    match first_chunk(input, &delim) {
        None => panic!("Expected a chunk but got none"),
        Some(c) => assert_eq!(c, input),
    }
}

#[test]
fn test_one_delimited_marks_end() {
    let delim = embl_delim();
    let input: &[u8] = b"some\nstuff\ngoes\nhere\n//\n";
    match first_chunk(input, &delim) {
        None => panic!("Expected a chunk but got none"),
        Some(c) => assert_eq!(c, input),
    }
}

#[test]
fn test_two_delimited_marks_start() {
    let delim = fasta_delim();
    let input: &[u8] = b">seq 1\nagct\n>seq2\ngattaca\n";
    let seq1: &[u8] = b">seq 1\nagct\n";
    let seq2: &[u8] = b">seq2\ngattaca\n";

    let mut ci = chunks(&delim);
    ci.feed(input);
    ci.finish();
    match ci.next_chunk() {
        Some(c) => assert_eq!(c, seq1),
        e => panic!("Expected seq 1 but got: {:?}", e),
    }
    match ci.next_chunk() {
        Some(c) => assert_eq!(c, seq2),
        e => panic!("Expected seq 2 but got: {:?}", e),
    }
}

#[test]
fn test_two_delimited_marks_end() {
    let delim = embl_delim();
    let input: &[u8] = b"seq 1\nagct\n//\nseq2\ngattaca\n//\n";
    let seq1: &[u8] = b"seq 1\nagct\n//\n";
    let seq2: &[u8] = b"seq2\ngattaca\n//\n";

    let mut ci = chunks(&delim);
    ci.feed(input);
    ci.finish();
    match ci.next_chunk() {
        Some(c) => assert_eq!(c, seq1),
        e => panic!("Expected seq 1 but got: {:?}", e),
    }
    match ci.next_chunk() {
        Some(c) => assert_eq!(c, seq2),
        e => panic!("Expected seq 2 but got: {:?}", e),
    }
}

#[test]
fn scenario_a_gives_exactly_two_chunks() {
    let chunks = split_chunks(b">seq 1\nagct\n>seq2\ngattaca\n", &fasta_delim());
    assert_eq!(chunks, vec![b">seq 1\nagct\n".to_vec(), b">seq2\ngattaca\n".to_vec()]);
}

#[test]
fn scenario_b_gives_exactly_two_chunks() {
    let chunks = split_chunks(b"seq 1\nagct\n//\nseq2\ngattaca\n//\n", &embl_delim());
    assert_eq!(chunks, vec![b"seq 1\nagct\n//\n".to_vec(), b"seq2\ngattaca\n//\n".to_vec()]);
}

#[test]
fn empty_input_gives_no_chunks_for_any_sentinel() {
    assert!(split_chunks(b"", &fasta_delim()).is_empty());
    assert!(split_chunks(b"", &embl_delim()).is_empty());
    assert!(split_chunks(b"", &Delim::new(b"", true)).is_empty());
}

#[test]
fn chunks_join_back_into_the_input() {
    let input: &[u8] = b"head\n>a\nxx>b>\n>c\n//\n>";
    for delim in [fasta_delim(), embl_delim(), Delim::new(b">\n", true), Delim::new(b"x", false)] {
        let joined: Vec<u8> = split_chunks(input, &delim).concat();
        assert_eq!(joined, input);
    }
}

#[test]
fn sentinel_stays_whole_in_its_chunk() {
    let ends = split_chunks(b"a//\nb//\nc", &embl_delim());
    assert_eq!(ends, vec![b"a//\n".to_vec(), b"b//\n".to_vec(), b"c".to_vec()]);
    let starts = split_chunks(b"x>a>b", &fasta_delim());
    assert_eq!(starts, vec![b"x".to_vec(), b">a".to_vec(), b">b".to_vec()]);
}

#[test]
fn sentinel_split_across_pieces_is_found() {
    let input: &[u8] = b"seq 1\nagct\n//\nseq2\ngattaca\n//\n";
    for piece in 1..8 {
        let got = chunks_in_pieces(input, &embl_delim(), piece);
        assert_eq!(got, vec![b"seq 1\nagct\n//\n".to_vec(), b"seq2\ngattaca\n//\n".to_vec()]);
    }
}

#[test]
fn chunks_wait_for_their_sentinel() {
    let delim = embl_delim();
    let mut ci = chunks(&delim);
    ci.feed(b"abc/");
    assert_eq!(ci.next_chunk(), None);
    ci.feed(b"/");
    assert_eq!(ci.next_chunk(), None);
    ci.feed(b"\nrest");
    assert_eq!(ci.next_chunk(), Some(b"abc//\n".to_vec()));
    assert_eq!(ci.next_chunk(), None);
    assert!(!ci.is_done());
    ci.finish();
    assert_eq!(ci.next_chunk(), Some(b"rest".to_vec()));
    assert_eq!(ci.next_chunk(), None);
    assert!(ci.is_done());
}

#[test]
fn empty_sentinel_gives_the_whole_input() {
    let got = split_chunks(b"a>b", &Delim::new(b"", false));
    assert_eq!(got, vec![b"a>b".to_vec()]);
}

#[test]
fn sentinel_longer_than_input_gives_the_input() {
    let got = split_chunks(b"//", &Delim::new(b"\n//\n", true));
    assert_eq!(got, vec![b"//".to_vec()]);
}

#[test]
fn adjacent_sentinels_give_no_empty_chunks() {
    let got = split_chunks(b">>a", &fasta_delim());
    assert_eq!(got, vec![b">".to_vec(), b">a".to_vec()]);
    let got = split_chunks(b"//\n//\n", &embl_delim());
    assert_eq!(got, vec![b"//\n".to_vec(), b"//\n".to_vec()]);
}
