use ted::buffer_contents::BufferContents;

/// The chunk lengths these tests are built with: chunks of at
/// most 4 characters, split into chunks of 2.
fn test_contents() -> BufferContents {
    BufferContents::with_chunk_lengths(4, 2)
}

#[test]
fn insert_into_null() {
    let mut buf = test_contents();
    assert!(buf.get(0).is_err());
    buf.insert_str(0, "abc").unwrap();
    assert_eq!(buf.get(0).unwrap(), 'a');
    assert_eq!(buf.get(1).unwrap(), 'b');
    assert_eq!(buf.get(2).unwrap(), 'c');
    assert!(buf.get(3).is_err());
}

#[test]
fn insert_beginning() {
    let mut buf = test_contents();
    buf.insert_str(0, "bcdefgh").unwrap();
    println!("{:?}", buf);
    assert_eq!(buf.chunk_count(), 4);
    assert_eq!(buf.get(0).unwrap(), 'b');
    assert_eq!(buf.get(1).unwrap(), 'c');
    assert_eq!(buf.get(2).unwrap(), 'd');
    assert_eq!(buf.get(3).unwrap(), 'e');
    assert_eq!(buf.get(4).unwrap(), 'f');
    assert_eq!(buf.get(5).unwrap(), 'g');
    assert_eq!(buf.get(6).unwrap(), 'h');
    buf.insert_str(0, "a").unwrap();
    println!("{:?}", buf);
    assert_eq!(buf.chunk_count(), 4);
    assert_eq!(buf.get(0).unwrap(), 'a');
    assert_eq!(buf.get(1).unwrap(), 'b');
    assert_eq!(buf.get(2).unwrap(), 'c');
    assert_eq!(buf.get(3).unwrap(), 'd');
    assert_eq!(buf.get(4).unwrap(), 'e');
    assert_eq!(buf.get(5).unwrap(), 'f');
    assert_eq!(buf.get(6).unwrap(), 'g');
    assert_eq!(buf.get(7).unwrap(), 'h');
}

#[test]
fn insert_into_string() {
    let mut buf = test_contents();
    buf.insert_str(0, "ac").unwrap();
    buf.insert_str(2, "d").unwrap();
    buf.insert_str(1, "b").unwrap();
    assert_eq!(buf.chunk_count(), 1);
    assert_eq!(buf.get(0).unwrap(), 'a');
    assert_eq!(buf.get(1).unwrap(), 'b');
    assert_eq!(buf.get(2).unwrap(), 'c');
    assert_eq!(buf.get(3).unwrap(), 'd');
    assert!(buf.get(4).is_err());

    buf = test_contents();
    buf.insert_str(0, "acd").unwrap();
    assert_eq!(buf.len(), 3);
    assert_eq!(buf.chunk_count(), 2);
    buf.insert_str(1, "b").unwrap();
    assert_eq!(buf.len(), 4);
    assert_eq!(buf.chunk_count(), 2);
}

#[test]
fn insert_inbetween_string() {
    let mut buf = test_contents();
    buf.insert_str(0, "abgh").unwrap();
    buf.insert_str(2, "cdef").unwrap();
    println!("{:?}", buf);
    assert_eq!(buf.len(), 8);
    assert_eq!(buf.chunk_count(), 4);
    assert_eq!(buf.chunk_string(0), "ab");
    assert_eq!(buf.chunk_string(1), "cd");
    assert_eq!(buf.chunk_string(2), "ef");
    assert_eq!(buf.chunk_string(3), "gh");
    assert_eq!(buf.get(0).unwrap(), 'a');
    assert_eq!(buf.get(1).unwrap(), 'b');
    assert_eq!(buf.get(2).unwrap(), 'c');
    assert_eq!(buf.get(3).unwrap(), 'd');
    assert_eq!(buf.get(4).unwrap(), 'e');
    assert_eq!(buf.get(5).unwrap(), 'f');
    assert_eq!(buf.get(6).unwrap(), 'g');
    assert_eq!(buf.get(7).unwrap(), 'h');
}

#[test]
fn insert_end_string() {
    let mut buf = test_contents();
    buf.insert_str(0, "abcd").unwrap();
    println!("{:?}", buf);
    buf.insert_str(4, "efgh").unwrap();
    println!("{:?}", buf);
    assert_eq!(buf.len(), 8);
    assert_eq!(buf.chunk_count(), 4);
    assert_eq!(buf.chunk_string(0), "ab");
    assert_eq!(buf.chunk_string(1), "cd");
    assert_eq!(buf.chunk_string(2), "ef");
    assert_eq!(buf.chunk_string(3), "gh");
    assert_eq!(buf.get(0).unwrap(), 'a');
    assert_eq!(buf.get(1).unwrap(), 'b');
    assert_eq!(buf.get(2).unwrap(), 'c');
    assert_eq!(buf.get(3).unwrap(), 'd');
    assert_eq!(buf.get(4).unwrap(), 'e');
    assert_eq!(buf.get(5).unwrap(), 'f');
    assert_eq!(buf.get(6).unwrap(), 'g');
    assert_eq!(buf.get(7).unwrap(), 'h');
    assert!(buf.get(8).is_err());
}

#[test]
fn insert_middle_string() {
    let mut buf = test_contents();
    buf.insert_str(0, "abcd").unwrap();
    println!("{:?}", buf);
    buf.insert_str(4, "fghi").unwrap();
    println!("{:?}", buf);
    buf.insert_str(4, "e").unwrap();
    println!("{:?}", buf);
    assert_eq!(buf.len(), 9);
    assert_eq!(buf.chunk_count(), 4);
    assert_eq!(buf.chunk_string(0), "ab");
    assert_eq!(buf.chunk_string(1), "cde");
    assert_eq!(buf.chunk_string(2), "fg");
    assert_eq!(buf.chunk_string(3), "hi");
    assert_eq!(buf.get(0).unwrap(), 'a');
    assert_eq!(buf.get(1).unwrap(), 'b');
    assert_eq!(buf.get(2).unwrap(), 'c');
    assert_eq!(buf.get(3).unwrap(), 'd');
    assert_eq!(buf.get(4).unwrap(), 'e');
    assert_eq!(buf.get(5).unwrap(), 'f');
    assert_eq!(buf.get(6).unwrap(), 'g');
    assert_eq!(buf.get(7).unwrap(), 'h');
    assert_eq!(buf.get(8).unwrap(), 'i');
    assert!(buf.get(9).is_err());
}

#[test]
fn insert_handle_char_boundary() {
    let mut buf = test_contents();
    buf.insert_str(0, "aβ").unwrap();
    assert_eq!(buf.chunk_count(), 1);
    assert_eq!(buf.len(), 2);
    assert_eq!(buf.chunk_string(0), "aβ");

    buf.insert_str(2, "c").unwrap();
    assert_eq!(buf.to_string(), "aβc");
}

#[test]
fn delete_char_boundary() {
    let mut buf = test_contents();
    buf.insert(0, 'β').unwrap();
    buf.insert(1, 'χ').unwrap();
    assert_eq!(buf.to_string(), "βχ");

    {
        let mut buf = buf.clone();
        buf.delete(0).unwrap();
        assert_eq!(buf.to_string(), "χ");
    }

    buf.insert(2, 'c').unwrap();
    assert_eq!(buf.to_string(), "βχc");

    buf.delete(1).unwrap();
    assert_eq!(buf.to_string(), "βc");
}

#[test]
fn delete_beginning() {
    let mut buf = test_contents();
    buf.insert_str(0, "ab").unwrap();
    buf.delete(0).unwrap();
    assert_eq!(buf.chunk_count(), 1);
    assert_eq!(buf.len(), 1);
    assert_eq!(buf.chunk_string(0), "b");
    assert_eq!(buf.chunk_len(0), 1);

    buf.delete(0).unwrap();
    assert_eq!(buf.chunk_count(), 0);
    assert_eq!(buf.len(), 0);
}

#[test]
fn delete_middle() {
    let mut buf = test_contents();
    buf.insert_str(0, "ab").unwrap();
    buf.insert_str(2, "c").unwrap();
    assert_eq!(buf.chunk_count(), 1);
    buf.delete(1).unwrap();
    assert_eq!(buf.chunk_count(), 1);
    assert_eq!(buf.chunk_string(0), "ac");
    assert_eq!(buf.chunk_len(0), 2);
}

#[test]
fn delete_region_inside() {
    let mut buf = test_contents();
    buf.insert_str(0, "ab").unwrap();
    buf.insert_str(2, "cd").unwrap();
    buf.delete_region(1, 3).unwrap();
    assert_eq!(buf.chunk_count(), 1);
    assert_eq!(buf.len(), 2);
    assert_eq!(buf.chunk_string(0), "ad");
    assert_eq!(buf.chunk_len(0), 2);
}

#[test]
fn delete_region_between() {
    let mut buf = test_contents();
    buf.insert_str(0, "abcd").unwrap();
    assert_eq!(buf.chunk_count(), 2);
    buf.delete_region(1, 3).unwrap();
    assert_eq!(buf.chunk_count(), 2);
    assert_eq!(buf.len(), 2);
    assert_eq!(buf.chunk_string(0), "a");
    assert_eq!(buf.chunk_len(0), 1);
    assert_eq!(buf.chunk_string(1), "d");
    assert_eq!(buf.chunk_len(1), 1);
}

#[test]
fn iter_empty() {
    let buf = test_contents();
    assert!(buf.iter().next().is_none());
}

#[test]
fn iter_one() {
    let mut buf = test_contents();
    buf.insert(0, 'a').unwrap();
    let mut iter = buf.iter();
    assert_eq!(iter.next().unwrap(), 'a');
    assert!(iter.next().is_none());

    let mut iter = buf.iter();
    assert_eq!(iter.next().unwrap(), 'a');
    assert!(iter.next().is_none());
}

#[test]
fn iter_multiple() {
    let mut buf = test_contents();
    buf.insert_str(0, "abcd").unwrap();
    let mut iter = buf.iter();
    assert_eq!(iter.next().unwrap(), 'a');
    assert_eq!(iter.next().unwrap(), 'b');
    assert_eq!(iter.next().unwrap(), 'c');
    assert_eq!(iter.next().unwrap(), 'd');
    assert!(iter.next().is_none());
}
