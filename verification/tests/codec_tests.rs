use note_cli::codec::decode_notes;
use note_cli::codec::encode_notes;
use note_cli::codec::load_notes;
use note_cli::codec::DecodeError;
use note_cli::model::Note;

fn note(id: &str, text: &str, date: &str) -> Note {
    Note { id: id.to_string(), note: text.to_string(), date: date.to_string() }
}

#[test]
fn test_encode_layout() {
    let notes = vec![note("a1", "Buy milk", "2025-01-01")];
    assert_eq!(encode_notes(&notes), "2:a1\n8:Buy milk\n10:2025-01-01\n");
}

#[test]
fn test_encode_empty_store() {
    let notes: Vec<Note> = Vec::new();
    assert_eq!(encode_notes(&notes), "");
}

#[test]
fn test_round_trip_through_file_form() {
    let notes = vec![
        note("id-1", "first note", "2025-01-01T00:00:00+00:00"),
        note("id-2", "second: with colon\nand line break", "2025-01-02T00:00:00+00:00"),
        note("id-3", "", "2025-01-03T00:00:00+00:00"),
    ];
    let text = encode_notes(&notes);
    let back = decode_notes(&text).unwrap();
    assert_eq!(back.len(), 3);
    for (a, b) in notes.iter().zip(back.iter()) {
        assert_eq!(a.id, b.id);
        assert_eq!(a.note, b.note);
        assert_eq!(a.date, b.date);
    }
}

#[test]
fn test_decode_empty_text() {
    assert_eq!(decode_notes("").unwrap().len(), 0);
}

#[test]
fn test_decode_rejects_corrupt_text() {
    assert!(matches!(decode_notes("garbage"), Err(DecodeError::Deserialization)));
    assert!(matches!(decode_notes("5:ab\n"), Err(DecodeError::Deserialization)));
    assert!(matches!(decode_notes("2:a1\n"), Err(DecodeError::Deserialization)));
    assert!(matches!(
        decode_notes("02:a1\n8:Buy milk\n10:2025-01-01\n"),
        Err(DecodeError::Deserialization)
    ));
    assert!(matches!(
        decode_notes("2:a1x8:Buy milk\n10:2025-01-01\n"),
        Err(DecodeError::Deserialization)
    ));
}

#[test]
fn test_load_notes_recovers_from_corrupt_text() {
    assert_eq!(load_notes("garbage").len(), 0);
    assert_eq!(load_notes("").len(), 0);
    let loaded = load_notes("2:a1\n8:Buy milk\n10:2025-01-01\n");
    assert_eq!(loaded.len(), 1);
    assert_eq!(loaded[0].id, "a1");
    assert_eq!(loaded[0].note, "Buy milk");
    assert_eq!(loaded[0].date, "2025-01-01");
}
