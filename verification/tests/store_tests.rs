//! Encryption round trips and the encrypted note store.

use tactanotes_core::db::Database;
use tactanotes_core::security::Encryptor;

#[test]
fn encrypt_decrypt_round_trip() {
    let enc = Encryptor::new(b"a passphrase");
    let blob = enc.encrypt(b"the plaintext body").expect("encrypt");
    assert!(blob.len() == 12 + 18 + 16);
    let back = enc.decrypt(&blob).expect("decrypt");
    assert_eq!(back.as_slice(), b"the plaintext body".as_slice());
}

#[test]
fn decrypt_rejects_tampering_and_wrong_key() {
    let enc = Encryptor::new(b"a passphrase");
    let mut blob = enc.encrypt(b"secret").expect("encrypt");
    let last = blob.len() - 1;
    blob[last] ^= 1;
    assert!(enc.decrypt(&blob).is_none());

    let blob2 = enc.encrypt(b"secret").expect("encrypt");
    let other = Encryptor::new(b"another passphrase");
    assert!(other.decrypt(&blob2).is_none());
    assert!(enc.decrypt(b"short").is_none());
}

#[test]
fn note_round_trip_through_store() {
    let mut db = Database::open_in_memory("pw").expect("open");
    let id = db.add_note(b"Lecture 1", b"All about rings.", None).expect("add");
    let (got_id, title, content, _updated) = db.get_note(id).expect("get");
    assert_eq!(got_id, id);
    assert_eq!(title.as_slice(), b"Lecture 1".as_slice());
    assert_eq!(content.as_slice(), b"All about rings.".as_slice());

    db.update_note(id, b"Lecture 1b", b"More about rings.").expect("update");
    let (_, title2, content2, _) = db.get_note(id).expect("get2");
    assert_eq!(title2.as_slice(), b"Lecture 1b".as_slice());
    assert_eq!(content2.as_slice(), b"More about rings.".as_slice());

    db.delete_note(id).expect("delete");
    assert!(db.get_note(id).is_err());
}

#[test]
fn stored_content_is_ciphertext() {
    let mut db = Database::open_in_memory("pw").expect("open");
    let _ = db.add_note(b"T", b"plain words", None).expect("add");
    let rows = db.get_modified_notes(0).expect("modified");
    assert_eq!(rows.len(), 1);
    // Delta sync ships the stored bytes: nonce plus ciphertext and tag,
    // never the plaintext.
    assert_ne!(rows[0].2.as_slice(), b"plain words".as_slice());
    assert_eq!(rows[0].2.len(), 12 + 11 + 16);
}

#[test]
fn folders_and_attachments() {
    let mut db = Database::open_in_memory("pw").expect("open");
    let fa = db.create_folder(b"Algebra").expect("folder a");
    let fb = db.create_folder(b"Statics").expect("folder b");
    let folders = db.get_folders().expect("folders");
    assert_eq!(folders.len(), 2);
    assert_eq!(folders[0].1.as_slice(), b"Algebra".as_slice());
    assert_eq!(folders[1].1.as_slice(), b"Statics".as_slice());
    assert!(fa != fb);

    let n = db.add_note(b"In folder", b"body", Some(fa)).expect("add");
    let listed = db.get_notes_by_folder(fa).expect("by folder");
    assert_eq!(listed.len(), 1);
    assert_eq!(listed[0].0, n);
    assert_eq!(listed[0].2.as_slice(), b"body".as_slice());
    assert!(db.get_notes_by_folder(fb).expect("empty folder").is_empty());

    let at = db.add_attachment(n, b"audio", b"/tmp/a.wav").expect("attach");
    let atts = db.get_attachments(n).expect("attachments");
    assert_eq!(atts.len(), 1);
    assert_eq!(atts[0].0, at);
    assert_eq!(atts[0].1.as_slice(), b"audio".as_slice());
    assert_eq!(atts[0].2.as_slice(), b"/tmp/a.wav".as_slice());
}

#[test]
fn similarity_search_ranks_and_thresholds() {
    let mut db = Database::open_in_memory("pw").expect("open");
    let a = db.add_note(b"near", b"body a", None).expect("a");
    let b = db.add_note(b"far", b"body b", None).expect("b");
    // Against the query (3,4): (1,0) scores 0.6 and (4,-3) scores 0.
    db.save_embedding(a, &vec![1, 0]).expect("emb a");
    db.save_embedding(b, &vec![4, -3]).expect("emb b");

    let ranked = db.search_similar_notes(&[3, 4], 10).expect("search");
    assert_eq!(ranked.len(), 2);
    assert_eq!(ranked[0], (a, 600));
    assert_eq!(ranked[1], (b, 0));

    let top1 = db.search_similar_notes(&[3, 4], 1).expect("top1");
    assert_eq!(top1, vec![(a, 600)]);
}
