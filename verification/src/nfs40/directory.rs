//! The pages of a directory: READDIR.

use bytes::Bytes;
use vstd::prelude::*;
use vstd::slice::slice_to_vec;
use vstd::utf8::{decode_utf8, encode_utf8, valid_utf8};

use crate::buffer::{
    advance, as_slice, contents, get_u32, get_u64, prefix, remaining, take_array,
};
use crate::error::{xdr_error, ErrorView, NfsError, Result};
use crate::nfs4::attrs::{decode_getattr_response, file_attrs, Attr, AttrView};
use crate::nfs4::compound::{chain, Decoded, Parsed, RawRequest, OP_PUTFH};
use crate::nfs40::compound::{decode_readdir_response, putfh_and, CompoundBuilder, OP_READDIR};
use crate::text::{around_number, concat2, decimal, push_decimal, utf8_error_text, utf8_text};
use crate::wire::{holds, lemma_regroup, Fields};
use crate::xdr::{be32, be64, bitmap4, bool32, hyper, opaque, padded, padded_len, word};

verus! {

/// A file in a directory.
#[derive(Debug)]
pub struct DirectoryEntry {
    pub cookie: u64,
    pub name: String,
    pub attr: Attr,
}

/// A file in a directory as specifications see it.
#[verifier::ext_equal]
pub struct EntryView {
    pub cookie: u64,
    pub name: Seq<char>,
    pub attr: AttrView,
}

impl View for DirectoryEntry {
    type V = EntryView;

    open spec fn view(&self) -> EntryView {
        EntryView { cookie: self.cookie, name: self.name@, attr: self.attr@ }
    }
}

/// An entry, or why it could not be read.
pub open spec fn entry_result(entry: Result<DirectoryEntry>) -> Decoded<EntryView> {
    match entry {
        Ok(entry) => Ok(entry@),
        Err(error) => Err(error@),
    }
}

/// Entries, or why they could not be read.
pub open spec fn entry_results(entries: Seq<Result<DirectoryEntry>>) -> Seq<Decoded<EntryView>> {
    entries.map_values(|entry: Result<DirectoryEntry>| entry_result(entry))
}

/// An entry4 behind its discriminator. Its cookie differs from that of the entry before.
pub open spec fn directory_entry(s: Seq<u8>, previous_cookie: u64) -> Parsed<EntryView> {
    let name_len = word(s.skip(8));
    let rest = s.skip(12);
    let name = rest.take(name_len as int);
    if s.len() < 12 {
        Err(ErrorView::Xdr("READDIR entry truncated"@))
    } else if hyper(s) == previous_cookie {
        Err(ErrorView::Xdr("READDIR entry did not advance cookie"@))
    } else if rest.len() < padded(name_len as nat) {
        Err(ErrorView::Xdr("READDIR entry name truncated"@))
    } else if !valid_utf8(name) {
        Err(ErrorView::Xdr("READDIR entry name is not UTF-8: "@ + utf8_error_text(name)))
    } else {
        chain(
            file_attrs(rest.skip(padded(name_len as nat) as int)),
            |attr: AttrView, rest: Seq<u8>|
                Ok::<(EntryView, Seq<u8>), ErrorView>(
                    (EntryView { cookie: hyper(s), name: decode_utf8(name), attr }, rest),
                ),
        )
    }
}

/// An entry takes bytes.
pub proof fn lemma_entry_takes_bytes(s: Seq<u8>, previous_cookie: u64)
    ensures
        directory_entry(s, previous_cookie) is Ok ==> directory_entry(
            s,
            previous_cookie,
        )->Ok_0.1.len() < s.len(),
{
}

/// The entries of a page and whether they are the last ones, or why the page could not be
/// read.
pub type Entries = Decoded<(Seq<Decoded<EntryView>>, bool)>;

/// A page that breaks off: what was read of it counts, and the page is the last one.
pub open spec fn broken_off(done: Seq<Decoded<EntryView>>, text: Seq<char>) -> Entries {
    if done.len() == 0 {
        Err(ErrorView::Xdr(text))
    } else {
        Ok((done.push(Err(ErrorView::Xdr(text))), true))
    }
}

/// The end of a page: whether it is the last one.
pub open spec fn page_end(s: Seq<u8>, done: Seq<Decoded<EntryView>>) -> Entries {
    if s.len() < 4 {
        broken_off(done, "READDIR eof flag truncated"@)
    } else if word(s) <= 1 {
        Ok((done, word(s) == 1))
    } else {
        Ok(
            (
                done.push(
                    Err(
                        ErrorView::Xdr(
                            "READDIR eof flag is "@ + decimal(word(s) as nat)
                                + ", expected 0 or 1"@,
                        ),
                    ),
                ),
                true,
            ),
        )
    }
}

/// The entries of a page behind those that were read already.
pub open spec fn page_entries(s: Seq<u8>, previous_cookie: u64, done: Seq<Decoded<EntryView>>) -> Entries
    decreases s.len(),
{
    if s.len() < 4 {
        broken_off(done, "READDIR entry discriminator truncated"@)
    } else if word(s) == 0 {
        page_end(s.skip(4), done)
    } else if word(s) != 1 {
        Ok(
            (
                done.push(
                    Err(
                        ErrorView::Xdr(
                            "READDIR entry discriminator is "@ + decimal(word(s) as nat)
                                + ", expected 0 or 1"@,
                        ),
                    ),
                ),
                true,
            ),
        )
    } else {
        match directory_entry(s.skip(4), previous_cookie) {
            Err(error) => Ok((done.push(Err(error)), true)),
            Ok((entry, rest)) => {
                proof {
                    lemma_entry_takes_bytes(s.skip(4), previous_cookie);
                }
                page_entries(rest, entry.cookie, done.push(Ok(entry)))
            },
        }
    }
}

/// A page of a directory as specifications see it.
#[verifier::ext_equal]
pub struct PageView {
    pub verifier: Seq<u8>,
    pub entries: Seq<Decoded<EntryView>>,
    pub eof: bool,
}

/// A page that continues after a cookie.
pub open spec fn directory_page(s: Seq<u8>, cookie: u64) -> Decoded<PageView> {
    if s.len() < 8 {
        Err(ErrorView::Xdr("READDIR cookie verifier truncated"@))
    } else {
        match page_entries(s.skip(8), cookie, Seq::empty()) {
            Err(error) => Err(error),
            Ok((entries, eof)) => Ok(PageView { verifier: s.take(8), entries, eof }),
        }
    }
}

pub fn decode_directory_entry(data: &mut Bytes, previous_cookie: u64) -> (entry: Result<
    DirectoryEntry,
>)
    ensures
        match directory_entry(contents(*old(data)), previous_cookie) {
            Ok((expected, rest)) => entry is Ok && entry->Ok_0@ == expected && contents(
                *final(data),
            ) == rest,
            Err(error) => entry is Err && entry->Err_0@ == error,
        },
{
    let ghost s = contents(*data);
    if remaining(data) < 12 {
        return Err(xdr_error("READDIR entry truncated"));
    }
    let cookie: u64 = get_u64(data);
    if cookie == previous_cookie {
        return Err(xdr_error("READDIR entry did not advance cookie"));
    }
    let name_len: u32 = get_u32(data);
    assert(s.skip(8).skip(4) =~= s.skip(12));
    let padded: u64 = padded_len(name_len);
    if (remaining(data) as u64) < padded {
        return Err(xdr_error("READDIR entry name truncated"));
    }
    let name_bytes = prefix(data, name_len as usize);
    let name = match utf8_text(slice_to_vec(as_slice(&name_bytes))) {
        Ok(name) => name,
        Err(error) => {
            return Err(
                NfsError::Xdr(concat2("READDIR entry name is not UTF-8: ", error.as_str())),
            );
        },
    };
    advance(data, padded as usize);
    let attr = decode_getattr_response(data)?;
    Ok(DirectoryEntry { cookie, name, attr })
}

/// Whether entries were read as expected.
pub open spec fn entries_read_as(
    result: Result<(Vec<Result<DirectoryEntry>>, bool)>,
    expected: Entries,
) -> bool {
    match expected {
        Ok((entries, eof)) => result is Ok && entry_results(result->Ok_0.0@) == entries
            && result->Ok_0.1 == eof,
        Err(error) => result is Err && result->Err_0@ == error,
    }
}

fn break_off(entries: Vec<Result<DirectoryEntry>>, text: &str) -> (result: Result<
    (Vec<Result<DirectoryEntry>>, bool),
>)
    ensures
        entries_read_as(result, broken_off(entry_results(entries@), text@)),
{
    let ghost before = entry_results(entries@);
    let error = xdr_error(text);
    if entries.len() == 0 {
        return Err(error);
    }
    let mut entries = entries;
    let ghost view = error@;
    entries.push(Err(error));
    assert(entry_results(entries@) =~= before.push(Err(view)));
    Ok((entries, true))
}

fn end_with(entries: Vec<Result<DirectoryEntry>>, error: NfsError) -> (result: Result<
    (Vec<Result<DirectoryEntry>>, bool),
>)
    ensures
        entries_read_as(
            result,
            Ok((entry_results(entries@).push(Err(error@)), true)),
        ),
{
    let ghost before = entry_results(entries@);
    let mut entries = entries;
    let ghost view = error@;
    entries.push(Err(error));
    assert(entry_results(entries@) =~= before.push(Err(view)));
    Ok((entries, true))
}

fn decode_entries(data: &mut Bytes, initial_cookie: u64) -> (result: Result<
    (Vec<Result<DirectoryEntry>>, bool),
>)
    ensures
        entries_read_as(
            result,
            page_entries(contents(*old(data)), initial_cookie, Seq::empty()),
        ),
{
    let ghost all = page_entries(contents(*data), initial_cookie, Seq::empty());
    let mut entries: Vec<Result<DirectoryEntry>> = Vec::new();
    let mut previous_cookie: u64 = initial_cookie;
    assert(entry_results(entries@) =~= Seq::empty());
    loop
        invariant
            all == page_entries(contents(*old(data)), initial_cookie, Seq::empty()),
            all == page_entries(contents(*data), previous_cookie, entry_results(entries@)),
        decreases contents(*data).len(),
    {
        let ghost s = contents(*data);
        let ghost before = entry_results(entries@);
        if remaining(data) < 4 {
            return break_off(entries, "READDIR entry discriminator truncated");
        }
        let discriminator: u32 = get_u32(data);
        if discriminator == 0 {
            if remaining(data) < 4 {
                return break_off(entries, "READDIR eof flag truncated");
            }
            let eof: u32 = get_u32(data);
            if eof > 1 {
                return end_with(
                    entries,
                    NfsError::Xdr(
                        around_number("READDIR eof flag is ", eof as u64, ", expected 0 or 1"),
                    ),
                );
            }
            return Ok((entries, eof == 1));
        }
        if discriminator != 1 {
            return end_with(
                entries,
                NfsError::Xdr(
                    around_number(
                        "READDIR entry discriminator is ",
                        discriminator as u64,
                        ", expected 0 or 1",
                    ),
                ),
            );
        }
        proof {
            lemma_entry_takes_bytes(s.skip(4), previous_cookie);
        }
        match decode_directory_entry(data, previous_cookie) {
            Err(error) => {
                return end_with(entries, error);
            },
            Ok(entry) => {
                previous_cookie = entry.cookie;
                let ghost view = entry@;
                entries.push(Ok(entry));
                assert(entry_results(entries@) =~= before.push(Ok(view)));
            },
        }
    }
}

/// Reads a page that continues after a cookie: its verifier, its entries and whether it is
/// the last one. An entry that cannot be read ends the page; those before it count.
pub fn decode_directory_page(data: &mut Bytes, initial_cookie: u64) -> (page: Result<
    ([u8; 8], Vec<Result<DirectoryEntry>>, bool),
>)
    ensures
        match directory_page(contents(*old(data)), initial_cookie) {
            Ok(expected) => page is Ok && page->Ok_0.0@ == expected.verifier && entry_results(
                page->Ok_0.1@,
            ) == expected.entries && page->Ok_0.2 == expected.eof,
            Err(error) => page is Err && page->Err_0@ == error,
        },
{
    if remaining(data) < 8 {
        return Err(xdr_error("READDIR cookie verifier truncated"));
    }
    let verifier: [u8; 8] = take_array(data);
    let (entries, eof) = decode_entries(data, initial_cookie)?;
    Ok((verifier, entries, eof))
}

/// Refuses a page that is longer than what was asked for.
pub fn validate_readdir_payload(payload: Bytes, maxcount: u32) -> (result: Result<Bytes>)
    ensures
        if contents(payload).len() > maxcount {
            &&& result is Err
            &&& result->Err_0@ == ErrorView::Xdr(
                "READDIR payload "@ + decimal(contents(payload).len())
                    + " exceeds requested maxcount "@ + decimal(maxcount as nat),
            )
        } else {
            result is Ok && contents(result->Ok_0) == contents(payload)
        },
{
    if remaining(&payload) as u64 > maxcount as u64 {
        let mut text = around_number(
            "READDIR payload ",
            remaining(&payload) as u64,
            " exceeds requested maxcount ",
        );
        push_decimal(&mut text, maxcount as u64);
        return Err(NfsError::Xdr(text));
    }
    Ok(payload)
}

/// The cookie of the last entry that could be read; the cookie before the page if there is
/// none.
pub open spec fn last_cookie(entries: Seq<Decoded<EntryView>>, cookie: u64) -> u64
    decreases entries.len(),
{
    if entries.len() == 0 {
        cookie
    } else {
        match entries.last() {
            Ok(entry) => entry.cookie,
            Err(_) => last_cookie(entries.drop_last(), cookie),
        }
    }
}

fn find_last_cookie(entries: &Vec<Result<DirectoryEntry>>, cookie: u64) -> (last: u64)
    ensures
        last == last_cookie(entry_results(entries@), cookie),
{
    let ghost all = entry_results(entries@);
    let mut i: usize = entries.len();
    assert(all.take(i as int) =~= all);
    while i > 0
        invariant
            i <= entries@.len(),
            all == entry_results(entries@),
            last_cookie(all, cookie) == last_cookie(all.take(i as int), cookie),
        decreases i,
    {
        assert(all.take(i as int).drop_last() =~= all.take(i - 1));
        assert(all.take(i as int).last() == entry_result(entries@[i - 1]));
        i -= 1;
        if let Ok(entry) = &entries[i] {
            return entry.cookie;
        }
    }
    cookie
}

/// A page of a directory and where the next one continues, if there is one.
#[derive(Debug)]
pub struct DirectoryPage {
    pub entries: Vec<Result<DirectoryEntry>>,
    pub next: Option<(u64, [u8; 8])>,
}

/// What a page leads to: its entries, and the cookie and the verifier of the next page. A
/// page without entries that is not the last one would be asked for forever.
pub open spec fn page_outcome(page: PageView, cookie: u64, name: Seq<char>) -> Decoded<
    (Seq<Decoded<EntryView>>, Option<(u64, Seq<u8>)>),
> {
    if page.entries.len() == 0 && !page.eof {
        Err(ErrorView::Xdr(name + " page made no progress"@))
    } else if page.eof {
        Ok((page.entries, None))
    } else {
        Ok((page.entries, Some((last_cookie(page.entries, cookie), page.verifier))))
    }
}

/// Whether a page is the expected one.
pub open spec fn page_is(
    page: Result<DirectoryPage>,
    expected: Decoded<(Seq<Decoded<EntryView>>, Option<(u64, Seq<u8>)>)>,
) -> bool {
    match expected {
        Err(error) => page is Err && page->Err_0@ == error,
        Ok((entries, next)) => {
            &&& page is Ok
            &&& entry_results(page->Ok_0.entries@) == entries
            &&& match next {
                None => page->Ok_0.next is None,
                Some((cookie, verifier)) => page->Ok_0.next is Some && page->Ok_0.next->Some_0.0
                    == cookie && page->Ok_0.next->Some_0.1@ == verifier,
            }
        },
    }
}

fn finish_page(
    verifier: [u8; 8],
    entries: Vec<Result<DirectoryEntry>>,
    eof: bool,
    cookie: u64,
    name: &str,
) -> (page: Result<DirectoryPage>)
    ensures
        page_is(
            page,
            page_outcome(
                (PageView { verifier: verifier@, entries: entry_results(entries@), eof }),
                cookie,
                name@,
            ),
        ),
{
    if entries.len() == 0 && !eof {
        return Err(NfsError::Xdr(concat2(name, " page made no progress")));
    }
    let next: Option<(u64, [u8; 8])> = if eof {
        None
    } else {
        Some((find_last_cookie(&entries, cookie), verifier))
    };
    Ok(DirectoryPage { entries, next })
}

/// The request for the page of a directory that continues after a cookie.
pub open spec fn readdir_args(
    fh: Seq<u8>,
    cookie: u64,
    verifier: Seq<u8>,
    dircount: u32,
    maxcount: u32,
    bitmap: Seq<u32>,
) -> RawRequest {
    RawRequest { tag: "readdir"@, minor: 0, ops: Seq::empty() }.with_op(
        OP_PUTFH,
        opaque(fh),
    ).with_op(
        OP_READDIR,
        be64(cookie) + verifier + be32(dircount) + be32(maxcount) + bitmap4(bitmap),
    )
}

pub fn readdir_request(
    fh: &Bytes,
    cookie: u64,
    verifier: &[u8; 8],
    dircount: u32,
    maxcount: u32,
    bitmap: &[u32],
) -> (request: CompoundBuilder)
    ensures
        request@ == readdir_args(
            contents(*fh),
            cookie,
            verifier@,
            dircount,
            maxcount,
            bitmap@,
        ),
{
    CompoundBuilder::new("readdir").putfh(as_slice(fh)).readdir(
        cookie,
        verifier,
        dircount,
        maxcount,
        bitmap,
    )
}

/// What the reply to a request for a page leads to.
pub open spec fn readdir_outcome(reply: Seq<u8>, maxcount: u32, cookie: u64, name: Seq<char>) -> Decoded<
    (Seq<Decoded<EntryView>>, Option<(u64, Seq<u8>)>),
> {
    match putfh_and(reply, OP_READDIR, "READDIR"@) {
        Err(error) => Err(error),
        Ok((_, payload)) => if payload.len() > maxcount {
            Err(
                ErrorView::Xdr(
                    "READDIR payload "@ + decimal(payload.len())
                        + " exceeds requested maxcount "@ + decimal(maxcount as nat),
                ),
            )
        } else {
            match directory_page(payload, cookie) {
                Err(error) => Err(error),
                Ok(page) => page_outcome(page, cookie, name),
            }
        },
    }
}

/// Takes in the reply to a request for a page. `name` is the operation that a page without
/// progress is reported under.
pub fn finish_readdir(reply: Bytes, maxcount: u32, cookie: u64, name: &str) -> (page: Result<
    DirectoryPage,
>)
    ensures
        page_is(page, readdir_outcome(contents(reply), maxcount, cookie, name@)),
{
    let mut payload = validate_readdir_payload(decode_readdir_response(reply)?, maxcount)?;
    let (verifier, entries, eof) = decode_directory_page(&mut payload, cookie)?;
    finish_page(verifier, entries, eof, cookie, name)
}

/// Of the results of a page only the last one can be a failure.
pub proof fn law_entries_before_a_failure_count(
    s: Seq<u8>,
    previous_cookie: u64,
    done: Seq<Decoded<EntryView>>,
    i: int,
)
    requires
        page_entries(s, previous_cookie, done) is Ok,
        forall|k: int| 0 <= k < done.len() ==> (#[trigger] done[k]) is Ok,
        0 <= i < page_entries(s, previous_cookie, done)->Ok_0.0.len() - 1,
    ensures
        page_entries(s, previous_cookie, done)->Ok_0.0[i] is Ok,
        page_entries(s, previous_cookie, done)->Ok_0.0.last() is Err ==> page_entries(
            s,
            previous_cookie,
            done,
        )->Ok_0.1,
    decreases s.len(),
{
    if s.len() >= 4 && word(s) == 1 {
        match directory_entry(s.skip(4), previous_cookie) {
            Err(_) => {},
            Ok((entry, rest)) => {
                lemma_entry_takes_bytes(s.skip(4), previous_cookie);
                law_entries_before_a_failure_count(rest, entry.cookie, done.push(Ok(entry)), i);
            },
        }
    }
}

/// No entry repeats the cookie of the one before it, so that a directory is not walked in
/// place.
pub proof fn law_cookies_advance(
    s: Seq<u8>,
    previous_cookie: u64,
    done: Seq<Decoded<EntryView>>,
    i: int,
)
    requires
        page_entries(s, previous_cookie, done) is Ok,
        done.len() > 0 ==> done.last() is Ok && done.last()->Ok_0.cookie == previous_cookie,
        forall|k: int|
            1 <= k < done.len() ==> advances(#[trigger] done[k], done[k - 1]),
        1 <= i < page_entries(s, previous_cookie, done)->Ok_0.0.len(),
    ensures
        advances(
            page_entries(s, previous_cookie, done)->Ok_0.0[i],
            page_entries(s, previous_cookie, done)->Ok_0.0[i - 1],
        ),
    decreases s.len(),
{
    let read = page_entries(s, previous_cookie, done)->Ok_0.0;
    if s.len() >= 4 && word(s) == 1 {
        match directory_entry(s.skip(4), previous_cookie) {
            Err(error) => {
                assert(read == done.push(Err(error)));
            },
            Ok((entry, rest)) => {
                lemma_entry_takes_bytes(s.skip(4), previous_cookie);
                let next = done.push(Ok(entry));
                assert forall|k: int| 1 <= k < next.len() implies advances(
                    #[trigger] next[k],
                    next[k - 1],
                ) by {
                    if k < done.len() {
                        assert(advances(done[k], done[k - 1]));
                    }
                }
                law_cookies_advance(rest, entry.cookie, next, i);
            },
        }
    } else if i < done.len() {
        assert(advances(done[i], done[i - 1]));
    }
}

/// Whether an entry, if it could be read, stands at another cookie than the one before it.
pub open spec fn advances(entry: Decoded<EntryView>, before: Decoded<EntryView>) -> bool {
    match (entry, before) {
        (Ok(entry), Ok(before)) => entry.cookie != before.cookie,
        _ => true,
    }
}

/// A page that does not end the directory leads on to the next: behind the last of its entries,
/// with the verifier of the page. A page that ends it leads nowhere, and one that does neither
/// is refused.
pub proof fn law_next_page_is_behind_the_last_entry(page: PageView, cookie: u64, name: Seq<char>)
    ensures
        page.entries.len() > 0 && !page.eof && page.entries[page.entries.len() - 1] is Ok ==> {
            let outcome = page_outcome(page, cookie, name);
            &&& outcome is Ok
            &&& outcome->Ok_0.0 == page.entries
            &&& outcome->Ok_0.1 is Some
            &&& outcome->Ok_0.1->Some_0.0 == page.entries[page.entries.len() - 1]->Ok_0.cookie
            &&& outcome->Ok_0.1->Some_0.1 == page.verifier
        },
        page.eof ==> page_outcome(page, cookie, name) is Ok && page_outcome(
            page,
            cookie,
            name,
        )->Ok_0.1 is None && page_outcome(page, cookie, name)->Ok_0.0 == page.entries,
        page.entries.len() == 0 && !page.eof ==> page_outcome(page, cookie, name) is Err,
{
}

/// Where entries at the end of a page could not be read, the next page starts behind the last
/// one that could; where none could, it starts where this page did.
pub proof fn law_unread_entries_do_not_lead_on(page: PageView, cookie: u64, name: Seq<char>, at: int)
    requires
        !page.eof,
        page.entries.len() > 0,
        -1 <= at < page.entries.len(),
        at >= 0 ==> page.entries[at] is Ok,
        forall|i: int| at < i < page.entries.len() ==> (#[trigger] page.entries[i]) is Err,
    ensures
        page_outcome(page, cookie, name) is Ok,
        page_outcome(page, cookie, name)->Ok_0.1 == Some(
            (
                if at >= 0 {
                    page.entries[at]->Ok_0.cookie
                } else {
                    cookie
                },
                page.verifier,
            ),
        ),
{
    lemma_last_read_entry(page.entries, cookie, at);
}

proof fn lemma_last_read_entry(entries: Seq<Decoded<EntryView>>, cookie: u64, at: int)
    requires
        -1 <= at < entries.len(),
        at >= 0 ==> entries[at] is Ok,
        forall|i: int| at < i < entries.len() ==> (#[trigger] entries[i]) is Err,
    ensures
        last_cookie(entries, cookie) == (if at >= 0 {
            entries[at]->Ok_0.cookie
        } else {
            cookie
        }),
    decreases entries.len(),
{
    if entries.len() > 0 && at < entries.len() - 1 {
        assert(entries[entries.len() - 1] is Err);
        lemma_last_read_entry(entries.drop_last(), cookie, at);
    }
}

/// READDIR asks for the directory from the cookie on, with the verifier that came with it, and
/// for the sizes and the attributes that the caller names.
pub proof fn law_readdir_names_where_to_go_on(
    fh: Seq<u8>,
    cookie: u64,
    verifier: Seq<u8>,
    dircount: u32,
    maxcount: u32,
    bitmap: Seq<u32>,
)
    requires
        fh.len() <= u32::MAX,
    ensures
        ({
            let request = readdir_args(fh, cookie, verifier, dircount, maxcount, bitmap);
            &&& request.minor == 0
            &&& request.ops.len() == 2
            &&& request.ops[0].opcode == 22
            &&& holds(request.ops[0].args, Fields::Start.counted(fh))
            &&& request.ops[1].opcode == 26
            &&& holds(
                request.ops[1].args,
                Fields::Start.hyper(cookie).bytes(verifier).word(dircount).word(maxcount).list(
                    bitmap,
                ),
            )
        }),
{
    broadcast use crate::wire::group_fields;

}

/// An entry as a server writes it: the cookie, the name, and the attributes as they stand.
pub type WrittenEntry = (u64, Seq<char>, Seq<u8>);

/// Whether the attributes of an entry are read as they should be, whatever follows them.
pub open spec fn attrs_are(attrs: Seq<u8>, attr: AttrView) -> bool {
    forall|tail: Seq<u8>|
        #[trigger] file_attrs(attrs + tail) == Ok::<(AttrView, Seq<u8>), ErrorView>((attr, tail))
}

/// Entries one after the other, each behind a one; then a zero and whether the directory ends.
pub open spec fn written_entries(list: Seq<WrittenEntry>, eof: bool) -> Seq<u8>
    decreases list.len(),
{
    if list.len() == 0 {
        be32(0) + bool32(eof)
    } else {
        be32(1) + (be64(list[0].0) + (opaque(encode_utf8(list[0].1)) + (list[0].2
            + written_entries(list.drop_first(), eof))))
    }
}

/// Whether entries can be told apart from where their page starts, one after the other.
pub open spec fn cookies_move_on(cookie: u64, list: Seq<WrittenEntry>) -> bool
    decreases list.len(),
{
    list.len() > 0 ==> list[0].0 != cookie && cookies_move_on(list[0].0, list.drop_first())
}

/// Whether an entry is read, and what is left behind it.
#[verifier::opaque]
spec fn entry_reads(s: Seq<u8>, previous_cookie: u64, entry: EntryView, rest: Seq<u8>) -> bool {
    directory_entry(s, previous_cookie) == Ok::<(EntryView, Seq<u8>), ErrorView>((entry, rest))
}

proof fn lemma_written_entry(
    item: WrittenEntry,
    attr: AttrView,
    previous_cookie: u64,
    tail: Seq<u8>,
)
    requires
        item.0 != previous_cookie,
        encode_utf8(item.1).len() <= u32::MAX,
        attrs_are(item.2, attr),
    ensures
        entry_reads(
            be64(item.0) + (opaque(encode_utf8(item.1)) + (item.2 + tail)),
            previous_cookie,
            EntryView { cookie: item.0, name: item.1, attr },
            tail,
        ),
{
    broadcast use {
        crate::wire::group_front,
        vstd::utf8::encode_utf8_valid_utf8,
        vstd::utf8::encode_utf8_decode_utf8,
    };

    reveal(entry_reads);
    let name = encode_utf8(item.1);
    let s = be64(item.0) + (opaque(name) + (item.2 + tail));
    lemma_regroup(be32(name.len() as u32), crate::xdr::fixed_opaque(name), item.2 + tail);
    assert(s.skip(8) == opaque(name) + (item.2 + tail));
    assert(s.skip(12) =~= s.skip(8).skip(4));
    assert(file_attrs(item.2 + tail) == Ok::<(AttrView, Seq<u8>), ErrorView>((attr, tail)));
}

proof fn lemma_page_goes_on(
    body: Seq<u8>,
    previous_cookie: u64,
    entry: EntryView,
    rest: Seq<u8>,
    done: Seq<Decoded<EntryView>>,
)
    requires
        entry_reads(body, previous_cookie, entry, rest),
    ensures
        page_entries(be32(1) + body, previous_cookie, done) == page_entries(
            rest,
            entry.cookie,
            done.push(Ok(entry)),
        ),
{
    reveal(entry_reads);
    crate::xdr::lemma_word_of_be32(1, body);
    lemma_entry_takes_bytes(body, previous_cookie);
}

proof fn lemma_page_ends(eof: bool, previous_cookie: u64, done: Seq<Decoded<EntryView>>)
    ensures
        page_entries(be32(0) + bool32(eof), previous_cookie, done) == Ok::<
            (Seq<Decoded<EntryView>>, bool),
            ErrorView,
        >((done, eof)),
{
    broadcast use crate::wire::group_front;

    let s = be32(0) + bool32(eof);
    assert(word(s) == 0 && s.skip(4) == bool32(eof));
}

#[verifier::rlimit(40)]
proof fn lemma_written_entries(
    list: Seq<WrittenEntry>,
    attrs: Seq<AttrView>,
    eof: bool,
    previous_cookie: u64,
    done: Seq<Decoded<EntryView>>,
)
    requires
        list.len() == attrs.len(),
        cookies_move_on(previous_cookie, list),
        forall|i: int|
            0 <= i < list.len() ==> {
                &&& encode_utf8((#[trigger] list[i]).1).len() <= u32::MAX
                &&& attrs_are(list[i].2, attrs[i])
            },
    ensures
        page_entries(written_entries(list, eof), previous_cookie, done) == Ok::<
            (Seq<Decoded<EntryView>>, bool),
            ErrorView,
        >(
            (
                done + Seq::new(
                    list.len(),
                    |i: int|
                        Ok::<EntryView, ErrorView>(
                            EntryView { cookie: list[i].0, name: list[i].1, attr: attrs[i] },
                        ),
                ),
                eof,
            ),
        ),
    decreases list.len(),
{
    let read = Seq::new(
        list.len(),
        |i: int|
            Ok::<EntryView, ErrorView>(
                EntryView { cookie: list[i].0, name: list[i].1, attr: attrs[i] },
            ),
    );
    if list.len() == 0 {
        lemma_page_ends(eof, previous_cookie, done);
        assert(done + read =~= done);
    } else {
        let others = written_entries(list.drop_first(), eof);
        let body = be64(list[0].0) + (opaque(encode_utf8(list[0].1)) + (list[0].2 + others));
        let first = EntryView { cookie: list[0].0, name: list[0].1, attr: attrs[0] };
        lemma_written_entry(list[0], attrs[0], previous_cookie, others);
        lemma_page_goes_on(body, previous_cookie, first, others, done);
        lemma_written_entries(
            list.drop_first(),
            attrs.drop_first(),
            eof,
            first.cookie,
            done.push(Ok(first)),
        );
        let after = Seq::new(
            list.drop_first().len(),
            |i: int|
                Ok::<EntryView, ErrorView>(
                    EntryView {
                        cookie: list.drop_first()[i].0,
                        name: list.drop_first()[i].1,
                        attr: attrs.drop_first()[i],
                    },
                ),
        );
        assert(done.push(Ok(first)) + after =~= done + read);
    }
}

/// A page is read back as it was written: its verifier, its entries in their order with their
/// cookies, names and attributes, and whether the directory ends with it.
pub proof fn law_written_page_is_read_back(
    verifier: Seq<u8>,
    list: Seq<WrittenEntry>,
    attrs: Seq<AttrView>,
    eof: bool,
    cookie: u64,
)
    requires
        verifier.len() == 8,
        list.len() == attrs.len(),
        cookies_move_on(cookie, list),
        forall|i: int|
            0 <= i < list.len() ==> {
                &&& encode_utf8((#[trigger] list[i]).1).len() <= u32::MAX
                &&& attrs_are(list[i].2, attrs[i])
            },
    ensures
        directory_page(verifier + written_entries(list, eof), cookie) is Ok,
        ({
            let page = directory_page(verifier + written_entries(list, eof), cookie)->Ok_0;
            &&& page.verifier == verifier
            &&& page.eof == eof
            &&& page.entries.len() == list.len()
            &&& forall|i: int|
                0 <= i < list.len() ==> (#[trigger] page.entries[i]) == Ok::<EntryView, ErrorView>(
                    EntryView { cookie: list[i].0, name: list[i].1, attr: attrs[i] },
                )
        }),
{
    let s = verifier + written_entries(list, eof);
    assert(s.skip(8) =~= written_entries(list, eof));
    assert(s.take(8) =~= verifier);
    lemma_written_entries(list, attrs, eof, cookie, Seq::empty());
}


} // verus!
