//! What each operation reads from the results of a reply. The results are
//! read by position, and a reply with too few of them is an error.

use vstd::prelude::*;
use crate::error::Error;
use crate::hex::{hex_value, parse_hex};
use crate::text::{lemma_views_push, views};
use crate::types::{file_infos, FileInfoView, Infos, InfosView, USB2SnesFileInfo, USB2SnesFileType};

verus! {

/// The version of the server: the first result.
pub open spec fn version_spec(results: Seq<Seq<char>>) -> Result<Seq<char>, Error> {
    if results.len() < 1 {
        Err(Error::OutOfBounds)
    } else {
        Ok(results[0])
    }
}

/// What the device says of itself: version, device type and running game
/// are the first three results, the flags all that follow.
pub open spec fn infos_spec(results: Seq<Seq<char>>) -> Result<InfosView, Error> {
    if results.len() < 3 {
        Err(Error::OutOfBounds)
    } else {
        Ok(
            InfosView {
                version: results[0],
                dev_type: results[1],
                game: results[2],
                flags: results.skip(3),
            },
        )
    }
}

/// The code that marks a file in a listing; any other marks a directory.
pub open spec fn file_code() -> Seq<char> {
    seq!['1']
}

/// The entry that the pair of results at index `2 * i` stands for: a type
/// code, then a name.
pub open spec fn entry_spec(results: Seq<Seq<char>>, i: int) -> FileInfoView {
    FileInfoView {
        name: results[2 * i + 1],
        file_type: if results[2 * i] == file_code() {
            USB2SnesFileType::File
        } else {
            USB2SnesFileType::Dir
        },
    }
}

/// The entries of a directory, in the order of the reply: one for each pair
/// of results. An odd number of results leaves a code without its name.
pub open spec fn listing_spec(results: Seq<Seq<char>>) -> Result<Seq<FileInfoView>, Error> {
    if results.len() % 2 != 0 {
        Err(Error::OutOfBounds)
    } else {
        Ok(Seq::new(results.len() / 2, |i: int| entry_spec(results, i)))
    }
}

/// The length of a file that is about to arrive: the first result, in
/// hexadecimal.
pub open spec fn length_spec(results: Seq<Seq<char>>) -> Result<usize, Error> {
    if results.len() < 1 {
        Err(Error::OutOfBounds)
    } else {
        match hex_value(results[0]) {
            Some(v) => if v <= usize::MAX {
                Ok(v as usize)
            } else {
                Err(Error::MalformedReply)
            },
            None => Err(Error::MalformedReply),
        }
    }
}

/// Reads the version of the server from the results of a reply.
pub fn version_of(results: &Vec<String>) -> (r: Result<String, Error>)
    ensures
        match r {
            Ok(version) => version_spec(views(results@)) == Ok::<Seq<char>, Error>(version@),
            Err(e) => version_spec(views(results@)) == Err::<Seq<char>, Error>(e),
        },
{
    if results.len() < 1 {
        return Err(Error::OutOfBounds);
    }
    Ok(results[0].clone())
}

/// Reads what the device says of itself from the results of a reply.
pub fn infos_of(results: &Vec<String>) -> (r: Result<Infos, Error>)
    ensures
        match r {
            Ok(infos) => infos_spec(views(results@)) == Ok::<InfosView, Error>(infos@),
            Err(e) => infos_spec(views(results@)) == Err::<InfosView, Error>(e),
        },
{
    if results.len() < 3 {
        return Err(Error::OutOfBounds);
    }
    let mut flags: Vec<String> = Vec::new();
    let mut i: usize = 3;
    while i < results.len()
        invariant
            3 <= i <= results.len(),
            views(flags@) =~= views(results@).subrange(3, i as int),
        decreases results.len() - i,
    {
        let flag = results[i].clone();
        proof {
            lemma_views_push(flags@, flag);
        }
        flags.push(flag);
        i = i + 1;
    }
    Ok(
        Infos {
            version: results[0].clone(),
            dev_type: results[1].clone(),
            game: results[2].clone(),
            flags,
        },
    )
}

/// Reads the entries of a directory from the results of a reply.
pub fn listing_of(results: &Vec<String>) -> (r: Result<Vec<USB2SnesFileInfo>, Error>)
    ensures
        match r {
            Ok(entries) => listing_spec(views(results@)) == Ok::<Seq<FileInfoView>, Error>(
                file_infos(entries@),
            ),
            Err(e) => listing_spec(views(results@)) == Err::<Seq<FileInfoView>, Error>(e),
        },
{
    if results.len() % 2 != 0 {
        return Err(Error::OutOfBounds);
    }
    let ghost texts = views(results@);
    let code = "1".to_owned();
    proof {
        reveal_strlit("1");
    }
    let mut entries: Vec<USB2SnesFileInfo> = Vec::new();
    let mut i: usize = 0;
    while i < results.len()
        invariant
            i <= results.len(),
            i % 2 == 0,
            results.len() % 2 == 0,
            texts == views(results@),
            code@ == file_code(),
            entries.len() == i / 2,
            forall|k: int|
                0 <= k < entries.len() ==> (#[trigger] entries[k])@ == entry_spec(texts, k),
        decreases results.len() - i,
    {
        let file_type = if results[i] == code {
            USB2SnesFileType::File
        } else {
            USB2SnesFileType::Dir
        };
        let entry = USB2SnesFileInfo { name: results[i + 1].clone(), file_type };
        entries.push(entry);
        i = i + 2;
    }
    assert(file_infos(entries@) =~= Seq::new(texts.len() / 2, |i: int| entry_spec(texts, i)));
    Ok(entries)
}

/// Reads the length of a file from the results of a reply.
pub fn length_of(results: &Vec<String>) -> (r: Result<usize, Error>)
    ensures
        r == length_spec(views(results@)),
{
    if results.len() < 1 {
        return Err(Error::OutOfBounds);
    }
    match parse_hex(results[0].as_str()) {
        Some(v) => Ok(v),
        None => Err(Error::MalformedReply),
    }
}

} // verus!
