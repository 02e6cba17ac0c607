//! Header lists of bounded length.
//!
//! A message carries at most twenty headers, pseudo-headers included. The list
//! is a `heapless::Vec`, which holds its entries in place.

use vstd::prelude::*;

use crate::bytes;
use crate::bytes::Field;
use crate::error::Error;

verus! {

/// The most headers that one message carries.
pub const MAX_HEADERS: usize = 20;

/// `:status`
pub const STATUS: [u8; 7] = [0x3a, 0x73, 0x74, 0x61, 0x74, 0x75, 0x73];

/// `:method`
pub const METHOD: [u8; 7] = [0x3a, 0x6d, 0x65, 0x74, 0x68, 0x6f, 0x64];

/// `:path`
pub const PATH: [u8; 5] = [0x3a, 0x70, 0x61, 0x74, 0x68];

/// `:scheme`
pub const SCHEME: [u8; 7] = [0x3a, 0x73, 0x63, 0x68, 0x65, 0x6d, 0x65];

/// `:authority`
pub const AUTHORITY: [u8; 10] = [0x3a, 0x61, 0x75, 0x74, 0x68, 0x6f, 0x72, 0x69, 0x74, 0x79];

/// `https`
pub const HTTPS: [u8; 5] = [0x68, 0x74, 0x74, 0x70, 0x73];

/// `heapless::Vec`: a list with a fixed capacity.
#[verifier::external_type_specification]
#[verifier::external_body]
#[verifier::reject_recursive_types(T)]
pub struct ExHeaplessVec<T, const N: usize>(heapless::Vec<T, N>);

/// What a bounded header list holds.
pub uninterp spec fn listed(v: heapless::Vec<(&[u8], &[u8]), 20>) -> Seq<Field>;

/// `heapless::Vec::new`: an empty list.
#[verifier::external_body]
fn list_new<'a>() -> (v: heapless::Vec<(&'a [u8], &'a [u8]), 20>)
    ensures
        listed(v) == Seq::<Field>::empty(),
{
    heapless::Vec::new()
}

/// `heapless::Vec::push`: appends an entry where fewer than the capacity are
/// there, and else changes nothing and gives the entry back as an error.
#[verifier::external_body]
fn list_push<'a>(
    v: &mut heapless::Vec<(&'a [u8], &'a [u8]), 20>,
    name: &'a [u8],
    value: &'a [u8],
) -> (ok: bool)
    ensures
        ok == (listed(*old(v)).len() < 20),
        ok ==> listed(*final(v)) == listed(*old(v)).push((name@, value@)),
        !ok ==> listed(*final(v)) == listed(*old(v)),
{
    v.push((name, value)).is_ok()
}

/// `heapless::Vec::as_slice`: the entries in order.
#[verifier::external_body]
fn list_slice<'a, 'b>(v: &'b heapless::Vec<(&'a [u8], &'a [u8]), 20>) -> (s: &'b [(
    &'a [u8],
    &'a [u8],
)])
    ensures
        bytes::pairs(s@) == listed(*v),
{
    v.as_slice()
}

/// A header list of at most `MAX_HEADERS` entries.
pub struct HeaderList<'a> {
    list: heapless::Vec<(&'a [u8], &'a [u8]), 20>,
}

impl<'a> View for HeaderList<'a> {
    type V = Seq<Field>;

    closed spec fn view(&self) -> Seq<Field> {
        listed(self.list)
    }
}

impl<'a> HeaderList<'a> {
    pub fn new() -> (r: Self)
        ensures
            r@ == Seq::<Field>::empty(),
    {
        HeaderList { list: list_new() }
    }

    /// Appends an entry, or fails where the list is full.
    pub fn push(&mut self, name: &'a [u8], value: &'a [u8]) -> (r: Result<(), Error>)
        ensures
            if old(self)@.len() < MAX_HEADERS {
                r == Ok::<(), Error>(()) && final(self)@ == old(self)@.push((name@, value@))
            } else {
                r == Err::<(), Error>(Error::TooManyHeaders) && final(self)@ == old(self)@
            },
    {
        if list_push(&mut self.list, name, value) {
            Ok(())
        } else {
            Err(Error::TooManyHeaders)
        }
    }

    /// Appends entries, as many as fit, and fails where that is not all.
    pub fn extend(&mut self, headers: &[(&'a [u8], &'a [u8])]) -> (r: Result<(), Error>)
        requires
            old(self)@.len() <= MAX_HEADERS,
        ensures
            if old(self)@.len() + headers@.len() <= MAX_HEADERS {
                r == Ok::<(), Error>(()) && final(self)@ == old(self)@ + bytes::pairs(headers@)
            } else {
                r == Err::<(), Error>(Error::TooManyHeaders) && final(self)@ == old(self)@
                    + bytes::pairs(headers@).take(MAX_HEADERS - old(self)@.len())
            },
    {
        let mut i: usize = 0;
        let ghost all = bytes::pairs(headers@);
        assert(self@ =~= old(self)@ + all.take(0));
        while i < headers.len()
            invariant
                i <= headers@.len(),
                all == bytes::pairs(headers@),
                self@ == old(self)@ + all.take(i as int),
                self@.len() <= MAX_HEADERS,
            decreases headers@.len() - i,
        {
            let (name, value) = headers[i];
            self.push(name, value)?;
            i = i + 1;
            assert(self@ =~= old(self)@ + all.take(i as int));
        }
        assert(all.take(i as int) =~= all);
        Ok(())
    }

    pub fn as_slice(&self) -> (r: &[(&'a [u8], &'a [u8])])
        ensures
            bytes::pairs(r@) == self@,
    {
        list_slice(&self.list)
    }
}

/// The header list of a response.
pub open spec fn response_list(status: Seq<u8>, fs: Seq<Field>) -> Seq<Field> {
    seq![(STATUS@, status)] + fs
}

/// Builds the header list of a response: the status, then the headers.
pub fn response_headers<'a>(status: &'a [u8], headers: &[(&'a [u8], &'a [u8])]) -> (r: Result<
    HeaderList<'a>,
    Error,
>)
    ensures
        match r {
            Ok(list) => headers@.len() < MAX_HEADERS && list@ == response_list(
                status@,
                bytes::pairs(headers@),
            ),
            Err(e) => headers@.len() >= MAX_HEADERS && e == Error::TooManyHeaders,
        },
{
    let mut list = HeaderList::new();
    list.push(&STATUS, status)?;
    list.extend(headers)?;
    assert(list@ =~= response_list(status@, bytes::pairs(headers@)));
    Ok(list)
}

/// The pseudo-headers of a request, with a scheme where there is one.
pub open spec fn request_pseudo(
    method: Seq<u8>,
    path: Seq<u8>,
    scheme: Option<Seq<u8>>,
    authority: Seq<u8>,
) -> Seq<Field> {
    match scheme {
        Some(s) => seq![
            (METHOD@, method),
            (PATH@, path),
            (SCHEME@, s),
            (AUTHORITY@, authority),
        ],
        None => seq![(METHOD@, method), (PATH@, path), (AUTHORITY@, authority)],
    }
}

/// The header list of a request.
pub open spec fn request_list(
    method: Seq<u8>,
    path: Seq<u8>,
    scheme: Option<Seq<u8>>,
    authority: Seq<u8>,
    fs: Seq<Field>,
) -> Seq<Field> {
    request_pseudo(method, path, scheme, authority) + fs
}

/// Builds the header list of a request: pseudo-headers, then the headers. The
/// scheme, where one is carried, is `https`.
pub fn request_headers<'a>(
    method: &'a [u8],
    path: &'a [u8],
    with_scheme: bool,
    authority: &'a [u8],
    headers: &[(&'a [u8], &'a [u8])],
) -> (r: Result<HeaderList<'a>, Error>)
    ensures
        ({
            let scheme = if with_scheme {
                Some(HTTPS@)
            } else {
                None
            };
            let all = request_list(method@, path@, scheme, authority@, bytes::pairs(headers@));
            match r {
                Ok(list) => all.len() <= MAX_HEADERS && list@ == all,
                Err(e) => all.len() > MAX_HEADERS && e == Error::TooManyHeaders,
            }
        }),
{
    let mut list = HeaderList::new();
    list.push(&METHOD, method)?;
    list.push(&PATH, path)?;
    if with_scheme {
        list.push(&SCHEME, &HTTPS)?;
    }
    list.push(&AUTHORITY, authority)?;
    let ghost scheme = if with_scheme {
        Some(HTTPS@)
    } else {
        None
    };
    assert(list@ =~= request_pseudo(method@, path@, scheme, authority@));
    list.extend(headers)?;
    Ok(list)
}

} // verus!
