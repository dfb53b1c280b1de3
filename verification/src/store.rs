//! The two state files as text: every text of the state on a line of
//! its own. The trust file holds two lines for each identifier, its
//! scope and its name; the tools file holds four for each record: scope,
//! name, version and path.

use vstd::prelude::*;
use vstd::slice::slice_to_vec;
use vstd::utf8::{encode_utf8, valid_utf8};
use crate::codec::{
    all_free_of, byte_rows, join, joined, law_joined_text_reads_one_way,
    lemma_joined_ends_closed, split, LINE_END,
};
use crate::error::ToolError;
use crate::home::{loadable, tool_views, Home, InstalledTool, InstalledToolView};
use crate::models::text_bytes;
use crate::trust::{id_views, SourceKind, ToolId, ToolIdView};

verus! {

/// The bytes of each text.
pub open spec fn encoded(texts: Seq<Seq<char>>) -> Seq<Seq<u8>> {
    texts.map_values(|t: Seq<char>| encode_utf8(t))
}

/// The file that holds the texts, each on a line of its own.
pub open spec fn lines_text(texts: Seq<Seq<char>>) -> Seq<u8> {
    joined(encoded(texts), LINE_END)
}

/// No text holds a line feed.
pub open spec fn plain(texts: Seq<Seq<char>>) -> bool {
    all_free_of(encoded(texts), LINE_END)
}

/// The contents of a list of strings.
pub open spec fn string_views(v: Seq<String>) -> Seq<Seq<char>> {
    v.map_values(|s: String| s@)
}

/// The lines of the trust file.
pub open spec fn trust_texts(ids: Seq<ToolIdView>) -> Seq<Seq<char>> {
    Seq::new(
        2 * ids.len(),
        |k: int|
            if k % 2 == 0 {
                ids[k / 2].scope
            } else {
                ids[k / 2].name
            },
    )
}

/// The lines of the tools file.
pub open spec fn tool_texts(index: Seq<InstalledToolView>) -> Seq<Seq<char>> {
    Seq::new(
        4 * index.len(),
        |k: int|
            if k % 4 == 0 {
                index[k / 4].id.scope
            } else if k % 4 == 1 {
                index[k / 4].id.name
            } else if k % 4 == 2 {
                index[k / 4].version
            } else {
                index[k / 4].path
            },
    )
}

/// The two files hold this state, which is one that can be loaded and
/// whose texts fit on a line each.
pub open spec fn state_text(
    trusted: Seq<ToolIdView>,
    index: Seq<InstalledToolView>,
    trust_file: Seq<u8>,
    tools_file: Seq<u8>,
) -> bool {
    &&& loadable(trusted, index)
    &&& plain(trust_texts(trusted))
    &&& plain(tool_texts(index))
    &&& trust_file == lines_text(trust_texts(trusted))
    &&& tools_file == lines_text(tool_texts(index))
}

/// The two files hold some state.
pub open spec fn readable(trust_file: Seq<u8>, tools_file: Seq<u8>) -> bool {
    exists|trusted: Seq<ToolIdView>, index: Seq<InstalledToolView>|
        state_text(trusted, index, trust_file, tools_file)
}

/// `String::from_utf8` of std: the string whose bytes are the given
/// ones, or nothing where the bytes are not UTF-8.
#[verifier::external_body]
fn text_from(bytes: Vec<u8>) -> (r: Option<String>)
    ensures
        match r {
            Some(s) => text_bytes(&s) == bytes@,
            None => !valid_utf8(bytes@),
        },
{
    String::from_utf8(bytes).ok()
}

proof fn lemma_encoded_one_to_one(a: Seq<Seq<char>>, b: Seq<Seq<char>>)
    requires
        encoded(a) == encoded(b),
    ensures
        a == b,
{
    broadcast use vstd::utf8::encode_utf8_decode_utf8;

    assert(a.len() == encoded(a).len());
    assert(b.len() == encoded(b).len());
    assert forall|k: int| 0 <= k < a.len() implies a[k] == b[k] by {
        assert(encoded(a)[k] == encode_utf8(a[k]));
        assert(encoded(b)[k] == encode_utf8(b[k]));
        assert(vstd::utf8::decode_utf8(encode_utf8(a[k])) == a[k]);
        assert(vstd::utf8::decode_utf8(encode_utf8(b[k])) == b[k]);
    }
    assert(a =~= b);
}

proof fn lemma_lines_one_to_one(a: Seq<Seq<char>>, b: Seq<Seq<char>>)
    requires
        plain(a),
        plain(b),
        lines_text(a) == lines_text(b),
    ensures
        a == b,
{
    law_joined_text_reads_one_way(encoded(a), encoded(b), LINE_END);
    lemma_encoded_one_to_one(a, b);
}

proof fn lemma_trust_texts_one_to_one(a: Seq<ToolIdView>, b: Seq<ToolIdView>)
    requires
        trust_texts(a) == trust_texts(b),
    ensures
        a == b,
{
    assert(trust_texts(a).len() == 2 * a.len());
    assert(trust_texts(b).len() == 2 * b.len());
    assert forall|k: int| 0 <= k < a.len() implies a[k] == b[k] by {
        assert(trust_texts(a)[2 * k] == a[k].scope);
        assert(trust_texts(b)[2 * k] == b[k].scope);
        assert(trust_texts(a)[2 * k + 1] == a[k].name);
        assert(trust_texts(b)[2 * k + 1] == b[k].name);
        assert(a[k].source == b[k].source);
    }
    assert(a =~= b);
}

proof fn lemma_tool_texts_one_to_one(a: Seq<InstalledToolView>, b: Seq<InstalledToolView>)
    requires
        tool_texts(a) == tool_texts(b),
    ensures
        a == b,
{
    assert(tool_texts(a).len() == 4 * a.len());
    assert(tool_texts(b).len() == 4 * b.len());
    assert forall|k: int| 0 <= k < a.len() implies a[k] == b[k] by {
        assert(tool_texts(a)[4 * k] == a[k].id.scope);
        assert(tool_texts(b)[4 * k] == b[k].id.scope);
        assert(tool_texts(a)[4 * k + 1] == a[k].id.name);
        assert(tool_texts(b)[4 * k + 1] == b[k].id.name);
        assert(tool_texts(a)[4 * k + 2] == a[k].version);
        assert(tool_texts(b)[4 * k + 2] == b[k].version);
        assert(tool_texts(a)[4 * k + 3] == a[k].path);
        assert(tool_texts(b)[4 * k + 3] == b[k].path);
        assert(a[k].id.source == b[k].id.source);
        assert(a[k].id == b[k].id);
    }
    assert(a =~= b);
}

/// Writes the texts, each on a line of its own.
pub fn write_lines(texts: &Vec<String>) -> (r: Vec<u8>)
    ensures
        r@ == lines_text(string_views(texts@)),
{
    let mut fields: Vec<Vec<u8>> = Vec::new();
    let mut i: usize = 0;
    while i < texts.len()
        invariant
            i <= texts@.len(),
            fields@.len() == i,
            forall|j: int| 0 <= j < i ==> (#[trigger] fields@[j])@ == encode_utf8(texts@[j]@),
        decreases texts@.len() - i,
    {
        fields.push(slice_to_vec(texts[i].as_str().as_bytes()));
        i = i + 1;
    }
    assert(byte_rows(fields@) =~= encoded(string_views(texts@)));
    join(&fields, LINE_END)
}

/// Reads the lines of a file. A file whose last line is not closed, or
/// that is not UTF-8, is the text of no lines.
pub fn read_lines(bytes: &[u8]) -> (r: Option<Vec<String>>)
    ensures
        match r {
            Some(texts) => plain(string_views(texts@)) && lines_text(string_views(texts@))
                == bytes@,
            None => forall|texts: Seq<Seq<char>>|
                !(plain(texts) && #[trigger] lines_text(texts) == bytes@),
        },
{
    let fields = match split(bytes, LINE_END) {
        Some(f) => f,
        None => {
            assert forall|texts: Seq<Seq<char>>|
                !(plain(texts) && #[trigger] lines_text(texts) == bytes@) by {
                lemma_joined_ends_closed(encoded(texts), LINE_END);
            }
            return None;
        },
    };
    let ghost rows = byte_rows(fields@);
    let mut out: Vec<String> = Vec::new();
    let mut i: usize = 0;
    while i < fields.len()
        invariant
            i <= fields@.len(),
            rows == byte_rows(fields@),
            joined(rows, LINE_END) == bytes@,
            all_free_of(rows, LINE_END),
            out@.len() == i,
            forall|j: int| 0 <= j < i ==> encode_utf8((#[trigger] out@[j])@) == rows[j],
        decreases fields@.len() - i,
    {
        match text_from(slice_to_vec(fields[i].as_slice())) {
            Some(s) => {
                out.push(s);
            },
            None => {
                assert forall|texts: Seq<Seq<char>>|
                    !(plain(texts) && #[trigger] lines_text(texts) == bytes@) by {
                    if plain(texts) && lines_text(texts) == bytes@ {
                        law_joined_text_reads_one_way(encoded(texts), rows, LINE_END);
                        assert(encoded(texts)[i as int] == encode_utf8(texts[i as int]));
                        vstd::utf8::encode_utf8_valid_utf8(texts[i as int]);
                        assert(rows[i as int] == fields@[i as int]@);
                    }
                }
                return None;
            },
        }
        i = i + 1;
    }
    assert(encoded(string_views(out@)) =~= rows);
    Some(out)
}

fn holds_line_end(text: &String) -> (r: bool)
    ensures
        r == encode_utf8(text@).contains(LINE_END),
{
    let b = text.as_str().as_bytes();
    let mut i: usize = 0;
    while i < b.len()
        invariant
            i <= b@.len(),
            b@ == encode_utf8(text@),
            forall|j: int| 0 <= j < i ==> b@[j] != LINE_END,
        decreases b@.len() - i,
    {
        if b[i] == LINE_END {
            return true;
        }
        i = i + 1;
    }
    false
}

/// The state's texts fit on a line each: none holds a line feed.
pub open spec fn fits_lines(trusted: Seq<ToolIdView>, index: Seq<InstalledToolView>) -> bool {
    plain(trust_texts(trusted)) && plain(tool_texts(index))
}

/// Whether the state can be written so that it loads again: whether
/// none of its texts holds a line feed.
pub fn can_save(home: &Home) -> (r: bool)
    ensures
        r == fits_lines(home.trusted(), home.index()),
{
    let ghost tt = trust_texts(home.trusted());
    let ghost xt = tool_texts(home.index());
    let n: usize = home.trusted_len();
    let mut i: usize = 0;
    while i < n
        invariant
            i <= n,
            n == home.trusted().len(),
            tt == trust_texts(home.trusted()),
            forall|k: int| 0 <= k < 2 * i ==> !(#[trigger] encoded(tt)[k]).contains(LINE_END),
        decreases n - i,
    {
        let id = home.trusted_entry(i);
        assert(tt[2 * i] == id@.scope && tt[2 * i + 1] == id@.name);
        assert(encoded(tt)[2 * i] == encode_utf8(id@.scope));
        assert(encoded(tt)[2 * i + 1] == encode_utf8(id@.name));
        if holds_line_end(&id.scope) || holds_line_end(&id.name) {
            return false;
        }
        i = i + 1;
    }
    let m: usize = home.tools_len();
    let mut j: usize = 0;
    while j < m
        invariant
            j <= m,
            m == home.index().len(),
            xt == tool_texts(home.index()),
            plain(tt),
            forall|k: int| 0 <= k < 4 * j ==> !(#[trigger] encoded(xt)[k]).contains(LINE_END),
        decreases m - j,
    {
        let t = home.tool(j);
        assert(xt[4 * j] == t@.id.scope && xt[4 * j + 1] == t@.id.name);
        assert(xt[4 * j + 2] == t@.version && xt[4 * j + 3] == t@.path);
        assert(encoded(xt)[4 * j] == encode_utf8(t@.id.scope));
        assert(encoded(xt)[4 * j + 1] == encode_utf8(t@.id.name));
        assert(encoded(xt)[4 * j + 2] == encode_utf8(t@.version));
        assert(encoded(xt)[4 * j + 3] == encode_utf8(t@.path));
        if holds_line_end(&t.id.scope) || holds_line_end(&t.id.name) || holds_line_end(&t.version)
            || holds_line_end(&t.path) {
            return false;
        }
        j = j + 1;
    }
    true
}

/// The text of the trust file for a state.
pub fn trust_file(home: &Home) -> (r: Vec<u8>)
    ensures
        r@ == lines_text(trust_texts(home.trusted())),
{
    let mut texts: Vec<String> = Vec::new();
    let n: usize = home.trusted_len();
    let mut i: usize = 0;
    while i < n
        invariant
            i <= n,
            n == home.trusted().len(),
            string_views(texts@) =~= trust_texts(home.trusted().take(i as int)),
        decreases n - i,
    {
        let id = home.trusted_entry(i);
        let ghost before = string_views(texts@);
        texts.push(id.scope.clone());
        texts.push(id.name.clone());
        assert(string_views(texts@) =~= before.push(id@.scope).push(id@.name));
        assert(string_views(texts@) =~= trust_texts(home.trusted().take(i + 1)));
        i = i + 1;
    }
    assert(home.trusted().take(n as int) =~= home.trusted());
    write_lines(&texts)
}

/// The text of the tools file for a state.
pub fn tools_file(home: &Home) -> (r: Vec<u8>)
    ensures
        r@ == lines_text(tool_texts(home.index())),
{
    let mut texts: Vec<String> = Vec::new();
    let n: usize = home.tools_len();
    let mut i: usize = 0;
    while i < n
        invariant
            i <= n,
            n == home.index().len(),
            string_views(texts@) =~= tool_texts(home.index().take(i as int)),
        decreases n - i,
    {
        let t = home.tool(i);
        let ghost before = string_views(texts@);
        texts.push(t.id.scope.clone());
        texts.push(t.id.name.clone());
        texts.push(t.version.clone());
        texts.push(t.path.clone());
        assert(string_views(texts@) =~= before.push(t@.id.scope).push(t@.id.name).push(
            t@.version,
        ).push(t@.path));
        assert(string_views(texts@) =~= tool_texts(home.index().take(i + 1)));
        i = i + 1;
    }
    assert(home.index().take(n as int) =~= home.index());
    write_lines(&texts)
}

/// Groups the lines of a trust file into identifiers.
pub fn ids_from_lines(texts: &Vec<String>) -> (r: Option<Vec<ToolId>>)
    ensures
        match r {
            Some(ids) => trust_texts(id_views(ids@)) == string_views(texts@),
            None => texts@.len() % 2 != 0,
        },
{
    let n: usize = texts.len();
    if n % 2 != 0 {
        return None;
    }
    let mut ids: Vec<ToolId> = Vec::new();
    let mut i: usize = 0;
    while i < n
        invariant
            i <= n,
            n == texts@.len(),
            i == 2 * ids@.len(),
            n % 2 == 0,
            trust_texts(id_views(ids@)) =~= string_views(texts@).take(i as int),
        decreases n - i,
    {
        let ghost before = id_views(ids@);
        let id = ToolId {
            source: SourceKind::GitHub,
            scope: texts[i].clone(),
            name: texts[i + 1].clone(),
        };
        ids.push(id);
        proof {
            let now = id_views(ids@);
            let want = string_views(texts@).take(i + 2);
            assert(now =~= before.push(id@));
            assert(trust_texts(now).len() == want.len());
            assert forall|k: int| 0 <= k < want.len() implies trust_texts(now)[k] == want[k] by {
                if k < i {
                    assert(now[k / 2] == before[k / 2]);
                    assert(trust_texts(before)[k] == string_views(texts@).take(i as int)[k]);
                } else {
                    assert(now[k / 2] == id@);
                }
            }
            assert(trust_texts(now) =~= want);
        }
        i = i + 2;
    }
    assert(string_views(texts@).take(n as int) =~= string_views(texts@));
    Some(ids)
}

/// Groups the lines of a tools file into records.
pub fn tools_from_lines(texts: &Vec<String>) -> (r: Option<Vec<InstalledTool>>)
    ensures
        match r {
            Some(tools) => tool_texts(tool_views(tools@)) == string_views(texts@),
            None => texts@.len() % 4 != 0,
        },
{
    let n: usize = texts.len();
    if n % 4 != 0 {
        return None;
    }
    let mut tools: Vec<InstalledTool> = Vec::new();
    let mut i: usize = 0;
    while i < n
        invariant
            i <= n,
            n == texts@.len(),
            i == 4 * tools@.len(),
            n % 4 == 0,
            tool_texts(tool_views(tools@)) =~= string_views(texts@).take(i as int),
        decreases n - i,
    {
        let ghost before = tool_views(tools@);
        let t = InstalledTool {
            id: ToolId {
                source: SourceKind::GitHub,
                scope: texts[i].clone(),
                name: texts[i + 1].clone(),
            },
            version: texts[i + 2].clone(),
            path: texts[i + 3].clone(),
        };
        tools.push(t);
        proof {
            let now = tool_views(tools@);
            let want = string_views(texts@).take(i + 4);
            assert(now =~= before.push(t@));
            assert(tool_texts(now).len() == want.len());
            assert forall|k: int| 0 <= k < want.len() implies tool_texts(now)[k] == want[k] by {
                if k < i {
                    assert(now[k / 4] == before[k / 4]);
                    assert(tool_texts(before)[k] == string_views(texts@).take(i as int)[k]);
                } else {
                    assert(now[k / 4] == t@);
                }
            }
            assert(tool_texts(now) =~= want);
        }
        i = i + 4;
    }
    assert(string_views(texts@).take(n as int) =~= string_views(texts@));
    Some(tools)
}

/// Loads the state from the texts of the two files. Files that hold no
/// state are corrupt: a line that is not closed, bytes that are not
/// UTF-8, lines that do not group, or an identifier that is listed twice.
pub fn from_files(trust_file: &[u8], tools_file: &[u8]) -> (r: Result<Home, ToolError>)
    ensures
        r.is_ok() == readable(trust_file@, tools_file@),
        match r {
            Ok(home) => home.wf() && state_text(
                home.trusted(),
                home.index(),
                trust_file@,
                tools_file@,
            ),
            Err(e) => e == ToolError::FileCorrupt,
        },
{
    let trust_lines = match read_lines(trust_file) {
        Some(l) => l,
        None => {
            assert(!readable(trust_file@, tools_file@)) by {
                assert forall|t: Seq<ToolIdView>, x: Seq<InstalledToolView>|
                    !state_text(t, x, trust_file@, tools_file@) by {
                    assert(!(plain(trust_texts(t)) && lines_text(trust_texts(t)) == trust_file@));
                }
            }
            return Err(ToolError::FileCorrupt);
        },
    };
    let tool_lines = match read_lines(tools_file) {
        Some(l) => l,
        None => {
            assert(!readable(trust_file@, tools_file@)) by {
                assert forall|t: Seq<ToolIdView>, x: Seq<InstalledToolView>|
                    !state_text(t, x, trust_file@, tools_file@) by {
                    assert(!(plain(tool_texts(x)) && lines_text(tool_texts(x)) == tools_file@));
                }
            }
            return Err(ToolError::FileCorrupt);
        },
    };
    let ids = match ids_from_lines(&trust_lines) {
        Some(v) => v,
        None => {
            assert(!readable(trust_file@, tools_file@)) by {
                assert forall|t: Seq<ToolIdView>, x: Seq<InstalledToolView>|
                    !state_text(t, x, trust_file@, tools_file@) by {
                    if state_text(t, x, trust_file@, tools_file@) {
                        lemma_lines_one_to_one(trust_texts(t), string_views(trust_lines@));
                        assert(trust_texts(t).len() == 2 * t.len());
                    }
                }
            }
            return Err(ToolError::FileCorrupt);
        },
    };
    let tools = match tools_from_lines(&tool_lines) {
        Some(v) => v,
        None => {
            assert(!readable(trust_file@, tools_file@)) by {
                assert forall|t: Seq<ToolIdView>, x: Seq<InstalledToolView>|
                    !state_text(t, x, trust_file@, tools_file@) by {
                    if state_text(t, x, trust_file@, tools_file@) {
                        lemma_lines_one_to_one(tool_texts(x), string_views(tool_lines@));
                        assert(tool_texts(x).len() == 4 * x.len());
                    }
                }
            }
            return Err(ToolError::FileCorrupt);
        },
    };
    match Home::from_parts(&ids, &tools) {
        Ok(home) => {
            assert(state_text(home.trusted(), home.index(), trust_file@, tools_file@));
            Ok(home)
        },
        Err(e) => {
            assert(!readable(trust_file@, tools_file@)) by {
                assert forall|t: Seq<ToolIdView>, x: Seq<InstalledToolView>|
                    !state_text(t, x, trust_file@, tools_file@) by {
                    if state_text(t, x, trust_file@, tools_file@) {
                        lemma_lines_one_to_one(trust_texts(t), string_views(trust_lines@));
                        lemma_lines_one_to_one(tool_texts(x), string_views(tool_lines@));
                        lemma_trust_texts_one_to_one(t, id_views(ids@));
                        lemma_tool_texts_one_to_one(x, tool_views(tools@));
                    }
                }
            }
            Err(e)
        },
    }
}

/// What reading a state file from disk gave.
#[derive(Debug)]
pub enum FileRead {
    /// The bytes of the file.
    Found(Vec<u8>),
    /// There is no such file.
    Missing,
    /// Reading failed in another way.
    Failed,
}

impl FileRead {
    /// The text that stands for the file: of a missing one, the empty text.
    pub open spec fn text(self) -> Seq<u8> {
        match self {
            FileRead::Found(bytes) => bytes@,
            _ => Seq::empty(),
        }
    }
}

/// Takes the lines of a file that has to be there, from what reading
/// it gave: a missing file is reported as such, not healed.
pub fn load_from_file_fallible(read: &FileRead) -> (r: Result<Vec<String>, ToolError>)
    ensures
        match r {
            Ok(lines) => *read is Found && plain(string_views(lines@)) && lines_text(
                string_views(lines@),
            ) == read.text(),
            Err(e) => match *read {
                FileRead::Missing => e == ToolError::FileNotFound,
                FileRead::Failed => e == ToolError::Io,
                FileRead::Found(bytes) => e == ToolError::FileCorrupt && forall|
                    texts: Seq<Seq<char>>,
                |
                    !(plain(texts) && #[trigger] lines_text(texts) == bytes@),
            },
        },
{
    match read {
        FileRead::Missing => Err(ToolError::FileNotFound),
        FileRead::Failed => Err(ToolError::Io),
        FileRead::Found(bytes) => match read_lines(bytes.as_slice()) {
            Some(lines) => Ok(lines),
            None => Err(ToolError::FileCorrupt),
        },
    }
}

/// A loaded state, and which of the two files are to be written anew
/// because they were missing.
#[derive(Debug)]
pub struct Loaded {
    pub home: Home,
    pub heal_trust_file: bool,
    pub heal_tools_file: bool,
}

/// Loads the state from what reading the two files gave. A missing file
/// counts as an empty one and is to be healed; a failed read is a
/// failure of the file system; files that hold no state are corrupt.
pub fn load(trust: &FileRead, tools: &FileRead) -> (r: Result<Loaded, ToolError>)
    ensures
        match r {
            Ok(l) => {
                &&& !(*trust is Failed) && !(*tools is Failed)
                &&& l.home.wf()
                &&& state_text(l.home.trusted(), l.home.index(), trust.text(), tools.text())
                &&& l.heal_trust_file == (*trust is Missing)
                &&& l.heal_tools_file == (*tools is Missing)
            },
            Err(e) => if *trust is Failed || *tools is Failed {
                e == ToolError::Io
            } else {
                e == ToolError::FileCorrupt && !readable(trust.text(), tools.text())
            },
        },
{
    let none: Vec<u8> = Vec::new();
    let (trust_bytes, heal_trust_file) = match trust {
        FileRead::Found(bytes) => (bytes.as_slice(), false),
        FileRead::Missing => (none.as_slice(), true),
        FileRead::Failed => { return Err(ToolError::Io); },
    };
    let (tools_bytes, heal_tools_file) = match tools {
        FileRead::Found(bytes) => (bytes.as_slice(), false),
        FileRead::Missing => (none.as_slice(), true),
        FileRead::Failed => { return Err(ToolError::Io); },
    };
    assert(trust_bytes@ =~= trust.text());
    assert(tools_bytes@ =~= tools.text());
    match from_files(trust_bytes, tools_bytes) {
        Ok(home) => Ok(Loaded { home, heal_trust_file, heal_tools_file }),
        Err(e) => Err(e),
    }
}

/// Saving and then loading gives the state again. Where the texts of a
/// valid state fit on a line each, the files written for it are
/// readable, and whatever state they hold is that state: the same
/// trusted identifiers and the same index, in the same order.
pub proof fn law_saved_state_loads_again(home: Home, loaded: Home)
    requires
        home.wf(),
        fits_lines(home.trusted(), home.index()),
        state_text(
            loaded.trusted(),
            loaded.index(),
            lines_text(trust_texts(home.trusted())),
            lines_text(tool_texts(home.index())),
        ),
    ensures
        readable(lines_text(trust_texts(home.trusted())), lines_text(tool_texts(home.index()))),
        loaded.trusted() == home.trusted(),
        loaded.index() == home.index(),
{
    let trust_text = lines_text(trust_texts(home.trusted()));
    let tools_text = lines_text(tool_texts(home.index()));
    assert(state_text(home.trusted(), home.index(), trust_text, tools_text));
    law_files_hold_one_state(
        home.trusted(),
        home.index(),
        loaded.trusted(),
        loaded.index(),
        trust_text,
        tools_text,
    );
}

/// Two files hold one state at most.
pub proof fn law_files_hold_one_state(
    trusted: Seq<ToolIdView>,
    index: Seq<InstalledToolView>,
    other_trusted: Seq<ToolIdView>,
    other_index: Seq<InstalledToolView>,
    trust_file: Seq<u8>,
    tools_file: Seq<u8>,
)
    requires
        state_text(trusted, index, trust_file, tools_file),
        state_text(other_trusted, other_index, trust_file, tools_file),
    ensures
        trusted == other_trusted,
        index == other_index,
        readable(trust_file, tools_file),
{
    lemma_lines_one_to_one(trust_texts(trusted), trust_texts(other_trusted));
    lemma_lines_one_to_one(tool_texts(index), tool_texts(other_index));
    lemma_trust_texts_one_to_one(trusted, other_trusted);
    lemma_tool_texts_one_to_one(index, other_index);
}

} // verus!
