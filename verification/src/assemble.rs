use vstd::prelude::*;
use crate::PublishDataWithContent;
use crate::codec::base64_encode;
use crate::codec::spec_b64_encode;
use crate::sniff::DetectedType;
use crate::sniff::detect_type;
use crate::sniff::normalize_name;
use crate::sniff::spec_detect;
use crate::sniff::spec_mime;
use crate::sniff::spec_normalize_name;

verus! {

/// One candidate file for a payload: its bare name and, where the file could
/// be read, its bytes.
pub struct FileEntry {
    pub name: String,
    pub content: Option<Vec<u8>>,
}

/// The entries whose bytes are present, in order: the ones the payload keeps.
pub open spec fn spec_kept(entries: Seq<FileEntry>) -> Seq<FileEntry>
    decreases entries.len(),
{
    if entries.len() == 0 {
        Seq::<FileEntry>::empty()
    } else {
        let rest = spec_kept(entries.skip(1));
        if entries[0].content is Some {
            seq![entries[0]] + rest
        } else {
            rest
        }
    }
}

/// The sniffed type of a kept entry.
pub open spec fn spec_entry_type(e: FileEntry) -> DetectedType
    recommends
        e.content is Some,
{
    spec_detect(e.content->0@, e.name@)
}

/// Assembles the publish payload: unreadable files are dropped without a
/// trace, and each kept file is sniffed, its name reconciled with the
/// detected type, and its bytes transport-encoded; the three output
/// sequences stay parallel and keep input order.
pub fn assemble_payload(title: String, description: String, entries: Vec<FileEntry>) -> (r:
    PublishDataWithContent)
    ensures
        r.wf(),
        r.title@ == title@,
        r.description@ == description@,
        r.file_names@.len() == spec_kept(entries@).len(),
        forall|i: int|
            0 <= i < spec_kept(entries@).len() ==> r.file_names@[i]@ == spec_normalize_name(
                spec_kept(entries@)[i].name@,
                spec_entry_type(spec_kept(entries@)[i]),
            ),
        forall|i: int|
            0 <= i < spec_kept(entries@).len() ==> r.file_mimes@[i]@ == spec_mime(
                spec_entry_type(spec_kept(entries@)[i]),
            ),
        forall|i: int|
            0 <= i < spec_kept(entries@).len() ==> r.file_contents@[i]@ == spec_b64_encode(
                spec_kept(entries@)[i].content->0@,
            ),
{
    let mut file_contents: Vec<String> = Vec::new();
    let mut file_names: Vec<String> = Vec::new();
    let mut file_mimes: Vec<String> = Vec::new();
    let ghost mut ks: Seq<FileEntry> = Seq::empty();
    let mut i: usize = 0;
    proof {
        assert(entries@.skip(0) =~= entries@);
        assert(ks + spec_kept(entries@) =~= spec_kept(entries@));
    }
    while i < entries.len()
        invariant
            i <= entries@.len(),
            spec_kept(entries@) == ks + spec_kept(entries@.skip(i as int)),
            file_names@.len() == ks.len(),
            file_mimes@.len() == ks.len(),
            file_contents@.len() == ks.len(),
            forall|j: int| 0 <= j < ks.len() ==> ks[j].content is Some,
            forall|j: int|
                0 <= j < ks.len() ==> file_names@[j]@ == spec_normalize_name(
                    ks[j].name@,
                    spec_entry_type(ks[j]),
                ),
            forall|j: int|
                0 <= j < ks.len() ==> file_mimes@[j]@ == spec_mime(spec_entry_type(ks[j])),
            forall|j: int|
                0 <= j < ks.len() ==> file_contents@[j]@ == spec_b64_encode(ks[j].content->0@),
        decreases entries@.len() - i,
    {
        proof {
            assert(entries@.skip(i as int)[0] == entries@[i as int]);
            assert(entries@.skip(i as int).skip(1) =~= entries@.skip(i as int + 1));
        }
        let entry = &entries[i];
        match &entry.content {
            Some(bytes) => {
                let t = detect_type(bytes.as_slice(), entry.name.as_str());
                let encoded = base64_encode(bytes.as_slice());
                let name = normalize_name(entry.name.clone(), &t);
                let mime = t.mime_string();
                file_contents.push(encoded);
                file_names.push(name);
                file_mimes.push(mime);
                proof {
                    ks = ks + seq![entries@[i as int]];
                    assert(ks + spec_kept(entries@.skip(i as int + 1)) =~= ks.drop_last() + (seq![
                        entries@[i as int],
                    ] + spec_kept(entries@.skip(i as int + 1))));
                }
            },
            None => {},
        }
        i = i + 1;
    }
    proof {
        assert(entries@.skip(entries@.len() as int).len() == 0);
        assert(spec_kept(entries@) =~= ks);
    }
    PublishDataWithContent { title, description, file_contents, file_names, file_mimes }
}

} // verus!
