//! Note cards: their shapes, the requests that store and fetch them, and the
//! replies of the note-card service.
use vstd::prelude::*;

verus! {

/// One side of a note card.
pub enum NoteCardElement {
    /// Regular text.
    Text(String),
    /// The address of an image.
    ImageUrl(String),
    /// The address of a video.
    VideoUrl(String),
    /// Just a url.
    Url(String),
}

/// A card with a front and a back.
pub struct BasicNoteCard {
    pub front: NoteCardElement,
    pub back: NoteCardElement,
}

/// A card of three rows of three elements.
pub struct NineByNineNoteCard {
    pub top_row: [NoteCardElement; 3],
    pub mid_row: [NoteCardElement; 3],
    pub bot_row: [NoteCardElement; 3],
}

/// The kinds of note card.
pub enum NoteCardVariants {
    NineByNineNoteCard(NineByNineNoteCard),
    BasicNoteCard(BasicNoteCard),
}

/// A request to store a set.
pub struct NoteCardUploadRequest {
    pub set_name: String,
    pub notecard_varient: NoteCardVariants,
    pub session_token: String,
    pub username: String,
}

/// A request for a set by name.
pub struct NoteCardGetRequest {
    pub set_name: String,
    pub session_token: String,
    pub username: String,
}

/// A request for a set by id.
pub struct NoteCardGetRequestPart2 {
    pub notecard_id: String,
    pub session_token: String,
    pub username: String,
}

/// A set as returned to the client.
pub struct NoteCardGetResponse {
    pub set_name: String,
    pub notecard_varient: NoteCardVariants,
}

/// Where a record came from.
pub struct Meta {
    pub auto_added: bool,
    pub source: String,
}

/// Stores note cards in the database.
pub struct NotecardStorageManager {}

/// The data of an uploaded set besides its cards.
pub struct NotecardData {
    pub auth: String,
    pub title: String,
    pub school: String,
    pub tags: String,
    pub desc: String,
    pub username: String,
}

impl NotecardData {
    /// The same data without the credentials: the auth token and the
    /// username are emptied.
    pub fn sanitize(self) -> (r: Self)
        ensures
            r.auth@ == Seq::<char>::empty(),
            r.username@ == Seq::<char>::empty(),
            r.title == self.title,
            r.school == self.school,
            r.tags == self.tags,
            r.desc == self.desc,
    {
        let mut d = self;
        d.auth = String::new();
        d.username = String::new();
        d
    }
}

/// A card as a client uploads it: the texts of its front and of its back.
pub struct Notecard {
    pub front: Vec<String>,
    pub back: Vec<String>,
}

/// A card as it is stored.
pub struct ReMapNotecard {
    pub front: Vec<String>,
    pub back: Vec<String>,
}

impl ReMapNotecard {
    /// The stored form of an uploaded card: the same front and back.
    pub fn remap(note: Notecard) -> (r: Self)
        ensures
            r.front == note.front,
            r.back == note.back,
    {
        ReMapNotecard { front: note.front, back: note.back }
    }
}

/// The stored forms of uploaded cards, in order.
pub fn remap_all(notes: Vec<Notecard>) -> (r: Vec<ReMapNotecard>)
    ensures
        r@.len() == notes@.len(),
        forall|i: int| 0 <= i < notes@.len() ==> (#[trigger] r@[i]).front == notes@[i].front && r@[i].back == notes@[i].back,
{
    let mut out: Vec<ReMapNotecard> = Vec::new();
    let mut rest = notes;
    let ghost orig = rest@;
    let ghost mut taken: int = 0;
    while rest.len() > 0
        invariant
            0 <= taken <= orig.len(),
            taken + rest@.len() == orig.len(),
            rest@ == orig.skip(taken),
            out@.len() == taken,
            forall|i: int| 0 <= i < taken ==> (#[trigger] out@[i]).front == orig[i].front && out@[i].back == orig[i].back,
        decreases rest@.len(),
    {
        let n = rest.remove(0);
        proof {
            assert(n == orig[taken]);
        }
        out.push(ReMapNotecard::remap(n));
        proof {
            taken = taken + 1;
            assert(rest@ =~= orig.skip(taken));
        }
    }
    out
}

/// The reply to an upload or a modification: success and the set's id (or
/// a message).
pub struct NotecardUploadResponse {
    pub success: bool,
    pub id: String,
}

/// The reply to a library request.
pub struct NotecardLibraryList<T> {
    pub library: Vec<T>,
    pub success: bool,
}

/// The reply to a store request: the id of the stored set, or a failure.
pub fn upload_reply(result: Result<String, ()>) -> (r: NotecardUploadResponse)
    ensures
        match result {
            Ok(id) => r.success && r.id == id,
            Err(_) => !r.success && r.id@ == "Upload failed"@,
        },
{
    match result {
        Ok(id) => NotecardUploadResponse { success: true, id },
        Err(_) => NotecardUploadResponse { success: false, id: crate::text::owned("Upload failed") },
    }
}

/// The reply to a store request that carried no cards.
pub fn missing_cards_reply() -> (r: NotecardUploadResponse)
    ensures
        !r.success,
        r.id@ == "Upload Failed, No Notecards Provided"@,
{
    NotecardUploadResponse { success: false, id: crate::text::owned("Upload Failed, No Notecards Provided") }
}

/// What a store request leads to: with cards, the job of storing them in
/// their stored form together with the set's data; without cards, the
/// reply refusing the upload at once.
pub fn store_plan(data: NotecardData, cards: Option<Vec<Notecard>>) -> (r: Result<(Vec<ReMapNotecard>, NotecardData), NotecardUploadResponse>)
    ensures
        match cards {
            Some(notes) => r matches Ok((stored, d)) && d == data && stored@.len() == notes@.len()
                && forall|i: int| 0 <= i < notes@.len() ==> (#[trigger] stored@[i]).front == notes@[i].front && stored@[i].back == notes@[i].back,
            None => r matches Err(reply) && !reply.success && reply.id@ == "Upload Failed, No Notecards Provided"@,
        },
{
    match cards {
        Some(notes) => Ok((remap_all(notes), data)),
        None => Err(missing_cards_reply()),
    }
}

/// The reply to a modification: the set's id on success.
pub fn modify_reply(result: Result<(), ()>, cfid: String) -> (r: NotecardUploadResponse)
    ensures
        match result {
            Ok(_) => r.success && r.id == cfid,
            Err(_) => !r.success && r.id@ == "Modify failed"@,
        },
{
    match result {
        Ok(_) => NotecardUploadResponse { success: true, id: cfid },
        Err(_) => NotecardUploadResponse { success: false, id: crate::text::owned("Modify failed") },
    }
}

/// The reply to a modification when no connection could be made.
pub fn unconnected_modify_reply() -> (r: NotecardUploadResponse)
    ensures
        !r.success,
        r.id@ == Seq::<char>::empty(),
{
    NotecardUploadResponse { success: false, id: String::new() }
}

/// The reply to a library request: the library on success, else nothing.
pub fn library_reply<T>(result: Result<Vec<T>, ()>) -> (r: NotecardLibraryList<T>)
    ensures
        match result {
            Ok(lib) => r.success && r.library == lib,
            Err(_) => !r.success && r.library@.len() == 0,
        },
{
    match result {
        Ok(library) => NotecardLibraryList { library, success: true },
        Err(_) => NotecardLibraryList { library: Vec::new(), success: false },
    }
}

/// What a credential check concluded from the login system's answer: the
/// token holds only when the answer came and was yes.
pub fn credentials_outcome(answer: Option<bool>) -> (r: Result<bool, ()>)
    ensures
        r == (if answer == Some(true) { Ok::<bool, ()>(true) } else { Err::<bool, ()>(()) }),
{
    match answer {
        Some(true) => Ok(true),
        _ => Err(()),
    }
}

} // verus!
