//! Lists for the user: the logs of a folder, and the guilds of an account.

use serde_json::Value;
use vstd::prelude::*;
use vstd::string::*;
use vstd::utf8::*;

use crate::json;
use crate::messages;

verus! {

broadcast use {vstd::string::group_string_axioms, vstd::seq::group_seq_axioms};

// ---- files --------------------------------------------------------------------------

/// A file or a folder.
pub struct FileInfo {
    pub path: String,
    pub name: String,
    pub size: u64,
}

/// A file or a folder as plain values.
pub struct FileView {
    pub path: Seq<char>,
    pub name: Seq<char>,
    pub size: u64,
}

impl View for FileInfo {
    type V = FileView;

    open spec fn view(&self) -> FileView {
        FileView { path: self.path@, name: self.name@, size: self.size }
    }
}

/// Describes a file or a folder: without a readable name it has an empty one, and
/// where its size is not known it is 0.
pub fn describe_file(path: String, name: Option<String>, size: Option<u64>) -> (r: FileInfo)
    ensures
        r@ == (FileView {
            path: path@,
            name: match name {
                Some(name) => name@,
                None => Seq::empty(),
            },
            size: match size {
                Some(size) => size,
                None => 0,
            },
        }),
{
    FileInfo {
        path,
        name: match name {
            Some(name) => name,
            None => String::new(),
        },
        size: match size {
            Some(size) => size,
            None => 0,
        },
    }
}

/// The error for a path that should be a file and is none.
pub fn not_a_file(path: &str) -> (r: String)
    ensures
        r@ == "not a file: "@ + path@,
{
    messages::joined("not a file: ", path)
}

/// The extension is `txt`, in whatever case.
pub open spec fn is_txt(extension: Option<Seq<char>>) -> bool {
    extension matches Some(text) && {
        &&& text.len() == 3
        &&& text[0] == 't' || text[0] == 'T'
        &&& text[1] == 'x' || text[1] == 'X'
        &&& text[2] == 't' || text[2] == 'T'
    }
}

/// Whether an extension is `txt`, in whatever case.
fn has_txt(extension: &Option<String>) -> (r: bool)
    ensures
        r == is_txt(
            match *extension {
                Some(text) => Some(text@),
                None => None,
            },
        ),
{
    match extension {
        Some(text) => {
            let text = text.as_str();
            if text.unicode_len() != 3 {
                return false;
            }
            let (a, b, c) = (text.get_char(0), text.get_char(1), text.get_char(2));
            (a == 't' || a == 'T') && (b == 'x' || b == 'X') && (c == 't' || c == 'T')
        },
        None => false,
    }
}

// ---- order of names -------------------------------------------------------------------

/// `a` is not behind `b` where texts are ordered by their bytes.
pub open spec fn bytes_le(a: Seq<u8>, b: Seq<u8>) -> bool
    decreases a.len(),
{
    if a.len() == 0 {
        true
    } else if b.len() == 0 {
        false
    } else if a[0] != b[0] {
        a[0] < b[0]
    } else {
        bytes_le(a.drop_first(), b.drop_first())
    }
}

/// `a` is not behind `b` in a list.
pub open spec fn name_le(a: Seq<char>, b: Seq<char>) -> bool {
    bytes_le(encode_utf8(a), encode_utf8(b))
}

proof fn lemma_bytes_total(a: Seq<u8>, b: Seq<u8>)
    ensures
        bytes_le(a, b) || bytes_le(b, a),
        bytes_le(a, a),
    decreases a.len(),
{
    if a.len() > 0 {
        lemma_bytes_total(a.drop_first(), b.drop_first());
    }
}

proof fn lemma_bytes_transitive(a: Seq<u8>, b: Seq<u8>, c: Seq<u8>)
    requires
        bytes_le(a, b),
        bytes_le(b, c),
    ensures
        bytes_le(a, c),
    decreases a.len(),
{
    if a.len() > 0 && b.len() > 0 && c.len() > 0 && a[0] == b[0] && b[0] == c[0] {
        lemma_bytes_transitive(a.drop_first(), b.drop_first(), c.drop_first());
    }
}

fn in_order(a: &str, b: &str) -> (r: bool)
    ensures
        r == name_le(a@, b@),
{
    let x = a.as_bytes();
    let y = b.as_bytes();
    let mut i: usize = 0;
    assert(x@.skip(0) =~= x@);
    assert(y@.skip(0) =~= y@);
    while i < x.len() && i < y.len() && x[i] == y[i]
        invariant
            i <= x@.len(),
            i <= y@.len(),
            bytes_le(x@, y@) == bytes_le(x@.skip(i as int), y@.skip(i as int)),
        decreases x@.len() - i,
    {
        assert(x@.skip(i as int).drop_first() =~= x@.skip(i + 1));
        assert(y@.skip(i as int).drop_first() =~= y@.skip(i + 1));
        i += 1;
    }
    if i == x.len() {
        true
    } else if i == y.len() {
        false
    } else {
        x[i] < y[i]
    }
}

// ---- logs of a folder -----------------------------------------------------------------

/// An entry of a folder.
pub struct ScanEntry {
    /// The extension of its name, where it has one that is text.
    pub extension: Option<String>,
    pub is_file: bool,
    pub file: FileInfo,
}

/// The entry is a text file.
pub open spec fn is_log(entry: ScanEntry) -> bool {
    &&& entry.is_file
    &&& is_txt(
        match entry.extension {
            Some(text) => Some(text@),
            None => None,
        },
    )
}

/// The text files among `entries`, in their order.
pub open spec fn logs_in(entries: Seq<ScanEntry>) -> Seq<FileView>
    decreases entries.len(),
{
    if entries.len() == 0 {
        Seq::empty()
    } else if is_log(entries.last()) {
        logs_in(entries.drop_last()).push(entries.last().file@)
    } else {
        logs_in(entries.drop_last())
    }
}

/// A list of files as plain values.
pub open spec fn views(files: Seq<FileInfo>) -> Seq<FileView> {
    files.map_values(|f: FileInfo| f@)
}

/// The list is ordered by name.
pub open spec fn is_sorted(files: Seq<FileView>) -> bool {
    forall|i: int, j: int|
        0 <= i <= j < files.len() ==> name_le(#[trigger] files[i].name, #[trigger] files[j].name)
}

/// The files of the name `name`, in their order.
pub open spec fn named(files: Seq<FileView>, name: Seq<char>) -> Seq<FileView> {
    files.filter(|f: FileView| f.name == name)
}

/// `sorted` holds the files of `files`, ordered by name; files of one name stay in
/// their order.
pub open spec fn sorts(sorted: Seq<FileView>, files: Seq<FileView>) -> bool {
    &&& is_sorted(sorted)
    &&& sorted.len() == files.len()
    &&& forall|name: Seq<char>| #[trigger] named(sorted, name) == named(files, name)
}

proof fn lemma_named_concat(a: Seq<FileView>, b: Seq<FileView>, name: Seq<char>)
    ensures
        named(a + b, name) == named(a, name) + named(b, name),
{
    Seq::filter_distributes_over_add(a, b, |f: FileView| f.name == name);
}

proof fn lemma_named_none(files: Seq<FileView>, name: Seq<char>)
    requires
        forall|i: int| 0 <= i < files.len() ==> (#[trigger] files[i]).name != name,
    ensures
        named(files, name) == Seq::<FileView>::empty(),
    decreases files.len(),
{
    reveal(Seq::filter);
    if files.len() > 0 {
        let less = files.drop_last();
        assert forall|i: int| 0 <= i < less.len() implies (#[trigger] less[i]).name != name by {
            assert(files[i].name != name);
        }
        lemma_named_none(less, name);
        assert(files[files.len() - 1].name != name);
    }
}

proof fn lemma_bytes_antisymmetric(a: Seq<u8>, b: Seq<u8>)
    requires
        bytes_le(a, b),
        bytes_le(b, a),
    ensures
        a == b,
    decreases a.len(),
{
    if a.len() > 0 && b.len() > 0 {
        lemma_bytes_antisymmetric(a.drop_first(), b.drop_first());
        assert(a =~= seq![a[0]] + a.drop_first());
        assert(b =~= seq![b[0]] + b.drop_first());
    } else {
        assert(a =~= b);
    }
}

/// The last file of a list is the last of its name.
proof fn lemma_named_last(files: Seq<FileView>, name: Seq<char>)
    requires
        files.len() > 0,
    ensures
        files.last().name == name ==> named(files, name).len() > 0 && named(files, name).last()
            == files.last() && named(files, name).drop_last() == named(files.drop_last(), name),
        files.last().name != name ==> named(files, name) == named(files.drop_last(), name),
{
    reveal(Seq::filter);
    if files.last().name == name {
        assert(named(files, name) == named(files.drop_last(), name).push(files.last()));
        assert(named(files, name).drop_last() =~= named(files.drop_last(), name));
    }
}

/// A name with a file in a sorted list is not behind the last one.
proof fn lemma_named_le(files: Seq<FileView>, name: Seq<char>)
    requires
        is_sorted(files),
        named(files, name).len() > 0,
    ensures
        files.len() > 0,
        name_le(name, files.last().name),
{
    if forall|i: int| 0 <= i < files.len() ==> (#[trigger] files[i]).name != name {
        lemma_named_none(files, name);
    } else {
        let i = choose|i: int| 0 <= i < files.len() && (#[trigger] files[i]).name == name;
        assert(name_le(files[i].name, files[files.len() - 1].name));
    }
}

proof fn lemma_one_order(a: Seq<FileView>, b: Seq<FileView>)
    requires
        is_sorted(a),
        is_sorted(b),
        forall|name: Seq<char>| #[trigger] named(a, name) == named(b, name),
    ensures
        a == b,
    decreases a.len() + b.len(),
{
    if a.len() == 0 && b.len() == 0 {
        assert(a =~= b);
    } else {
        if a.len() > 0 {
            lemma_named_last(a, a.last().name);
            assert(named(a, a.last().name) == named(b, a.last().name));
            lemma_named_le(b, a.last().name);
        }
        if b.len() > 0 {
            lemma_named_last(b, b.last().name);
            assert(named(a, b.last().name) == named(b, b.last().name));
            lemma_named_le(a, b.last().name);
        }
        let name = a.last().name;
        lemma_bytes_antisymmetric(encode_utf8(name), encode_utf8(b.last().name));
        encode_utf8_decode_utf8(name);
        encode_utf8_decode_utf8(b.last().name);
        assert(b.last().name == name);
        lemma_named_last(a, name);
        lemma_named_last(b, name);
        assert(a.last() == b.last());
        let x = a.drop_last();
        let y = b.drop_last();
        assert forall|n: Seq<char>| #[trigger] named(x, n) == named(y, n) by {
            lemma_named_last(a, n);
            lemma_named_last(b, n);
            assert(named(a, n) == named(b, n));
        }
        assert forall|i: int, j: int| 0 <= i <= j < x.len() implies name_le(
            #[trigger] x[i].name,
            #[trigger] x[j].name,
        ) by {
            assert(name_le(a[i].name, a[j].name));
        }
        assert forall|i: int, j: int| 0 <= i <= j < y.len() implies name_le(
            #[trigger] y[i].name,
            #[trigger] y[j].name,
        ) by {
            assert(name_le(b[i].name, b[j].name));
        }
        lemma_one_order(x, y);
        assert(a =~= x.push(a.last()));
        assert(b =~= y.push(b.last()));
    }
}

/// Files have one order: two lists that sort the same files are equal.
pub proof fn files_have_one_order(a: Seq<FileView>, b: Seq<FileView>, files: Seq<FileView>)
    requires
        sorts(a, files),
        sorts(b, files),
    ensures
        a == b,
{
    assert forall|name: Seq<char>| #[trigger] named(a, name) == named(b, name) by {
        assert(named(b, name) == named(files, name));
    }
    lemma_one_order(a, b);
}

/// A file that is put behind all that are not behind it keeps a list sorted.
proof fn lemma_insert(sorted: Seq<FileView>, files: Seq<FileView>, at: int, file: FileView)
    requires
        sorts(sorted, files),
        0 <= at <= sorted.len(),
        at > 0 ==> name_le(sorted[at - 1].name, file.name),
        forall|j: int|
            at <= j < sorted.len() ==> !name_le((#[trigger] sorted[j]).name, file.name),
    ensures
        sorts(sorted.insert(at, file), files.push(file)),
{
    let front = sorted.take(at);
    let back = sorted.skip(at);
    let more = sorted.insert(at, file);
    let one = seq![file];
    assert(sorted =~= front + back);
    assert(more =~= (front + one) + back);
    assert(files.push(file) =~= files + one);
    assert forall|name: Seq<char>| #[trigger] named(more, name) == named(
        files.push(file),
        name,
    ) by {
        lemma_named_concat(front, back, name);
        lemma_named_concat(front + one, back, name);
        lemma_named_concat(front, one, name);
        lemma_named_concat(files, one, name);
        assert(named(sorted, name) == named(files, name));
        if name == file.name {
            assert forall|i: int| 0 <= i < back.len() implies (#[trigger] back[i]).name != name by {
                assert(!name_le(sorted[at + i].name, file.name));
                lemma_bytes_total(encode_utf8(file.name), encode_utf8(file.name));
            }
            lemma_named_none(back, name);
        } else {
            assert(one[0].name != name);
            lemma_named_none(one, name);
        }
        assert(named(more, name) =~= named(files.push(file), name));
    }
    assert forall|i: int, j: int| 0 <= i <= j < more.len() implies name_le(
        #[trigger] more[i].name,
        #[trigger] more[j].name,
    ) by {
        let n = encode_utf8(file.name);
        let old_i = if i < at {
            i
        } else {
            i - 1
        };
        let old_j = if j < at {
            j
        } else {
            j - 1
        };
        if i != at && j != at {
            assert(name_le(sorted[old_i].name, sorted[old_j].name));
        } else if i == at && j == at {
            lemma_bytes_total(n, n);
        } else if i == at {
            assert(!name_le(sorted[old_j].name, file.name));
            lemma_bytes_total(encode_utf8(sorted[old_j].name), n);
        } else {
            assert(name_le(sorted[i].name, sorted[at - 1].name));
            lemma_bytes_transitive(
                encode_utf8(sorted[i].name),
                encode_utf8(sorted[at - 1].name),
                n,
            );
        }
    }
}

/// Puts a file in its place in a sorted list.
fn insert_sorted(files: &mut Vec<FileInfo>, file: FileInfo, Ghost(all): Ghost<Seq<FileView>>)
    requires
        sorts(views(old(files)@), all),
    ensures
        sorts(views(final(files)@), all.push(file@)),
{
    let ghost sorted = views(files@);
    let mut at: usize = files.len();
    while at > 0 && !in_order(files[at - 1].name.as_str(), file.name.as_str())
        invariant
            at <= files@.len(),
            sorted == views(files@),
            forall|j: int|
                at <= j < sorted.len() ==> !name_le((#[trigger] sorted[j]).name, file@.name),
        decreases at,
    {
        assert(sorted[at - 1] == files@[at - 1]@);
        at -= 1;
    }
    proof {
        if at > 0 {
            assert(sorted[at - 1] == files@[at - 1]@);
        }
        lemma_insert(sorted, all, at as int, file@);
    }
    files.insert(at, file);
    assert(views(files@) =~= sorted.insert(at as int, file@));
}

/// The text files of a folder, ordered by name.
pub fn scan_logs(entries: &Vec<ScanEntry>) -> (r: Vec<FileInfo>)
    ensures
        sorts(views(r@), logs_in(entries@)),
{
    let mut files: Vec<FileInfo> = Vec::new();
    proof {
        assert(views(files@) =~= Seq::<FileView>::empty());
        assert(entries@.take(0) =~= Seq::<ScanEntry>::empty());
    }
    let mut i: usize = 0;
    while i < entries.len()
        invariant
            i <= entries@.len(),
            sorts(views(files@), logs_in(entries@.take(i as int))),
        decreases entries@.len() - i,
    {
        let entry = &entries[i];
        assert(entries@.take(i + 1).drop_last() =~= entries@.take(i as int));
        if entry.is_file && has_txt(&entry.extension) {
            let file = FileInfo {
                path: entry.file.path.clone(),
                name: entry.file.name.clone(),
                size: entry.file.size,
            };
            insert_sorted(&mut files, file, Ghost(logs_in(entries@.take(i as int))));
        }
        i += 1;
    }
    assert(entries@.take(i as int) =~= entries@);
    files
}

// ---- guilds -----------------------------------------------------------------------------

/// A guild that logs can be uploaded for.
pub struct GuildOption {
    /// Its id; none for personal logs.
    pub id: Option<i64>,
    pub label: String,
    pub region_id: Option<i64>,
}

/// A guild as plain values.
pub struct GuildView {
    pub id: Option<i64>,
    pub label: Seq<char>,
    pub region_id: Option<i64>,
}

impl View for GuildOption {
    type V = GuildView;

    open spec fn view(&self) -> GuildView {
        GuildView { id: self.id, label: self.label@, region_id: self.region_id }
    }
}

/// What a login gives.
pub struct LoginResult {
    /// The account's name; none where the credentials were rejected.
    pub user_name: Option<String>,
    pub guilds: Vec<GuildOption>,
}

/// The guild that an item of the site's list describes; none for an item without an
/// id. The site marks personal logs with a negative id.
pub open spec fn guild_of(item: Value) -> Option<GuildView> {
    match json::integer_field(item, "value"@) {
        Some(value) => Some(
            GuildView {
                id: if value < 0 {
                    None
                } else {
                    Some(value)
                },
                label: match json::text_field(item, "label"@) {
                    Some(label) => label,
                    None => Seq::empty(),
                },
                region_id: json::integer_field(item, "regionId"@),
            },
        ),
        None => None,
    }
}

/// The guilds that the items of the site's list describe, in their order.
pub open spec fn guilds_of(items: Seq<Value>) -> Seq<GuildView>
    decreases items.len(),
{
    if items.len() == 0 {
        Seq::empty()
    } else {
        match guild_of(items.last()) {
            Some(guild) => guilds_of(items.drop_last()).push(guild),
            None => guilds_of(items.drop_last()),
        }
    }
}

/// Reads an item of the site's list of guilds.
fn read_guild(item: &Value) -> (r: Option<GuildOption>)
    ensures
        r is Some <==> guild_of(*item) is Some,
        r matches Some(guild) ==> guild@ == guild_of(*item)->0,
{
    match json::get_integer(item, "value") {
        Some(value) => {
            let label = match json::get_text(item, "label") {
                Some(label) => label.to_owned(),
                None => String::new(),
            };
            let id = if value < 0 {
                None
            } else {
                Some(value)
            };
            Some(GuildOption { id, label, region_id: json::get_integer(item, "regionId") })
        },
        None => None,
    }
}

/// The guilds of an account. Items without an id are passed over.
pub fn guild_options(items: &Vec<Value>) -> (r: Vec<GuildOption>)
    ensures
        r@.map_values(|g: GuildOption| g@) == guilds_of(items@),
{
    let mut guilds: Vec<GuildOption> = Vec::new();
    proof {
        assert(guilds@.map_values(|g: GuildOption| g@) =~= Seq::<GuildView>::empty());
        assert(items@.take(0) =~= Seq::<Value>::empty());
    }
    let mut i: usize = 0;
    while i < items.len()
        invariant
            i <= items@.len(),
            guilds@.map_values(|g: GuildOption| g@) == guilds_of(items@.take(i as int)),
        decreases items@.len() - i,
    {
        let ghost before = guilds@;
        assert(items@.take(i + 1).drop_last() =~= items@.take(i as int));
        if let Some(guild) = read_guild(&items[i]) {
            guilds.push(guild);
            assert(guilds@.map_values(|g: GuildOption| g@) =~= before.map_values(
                |g: GuildOption| g@,
            ).push(guild@));
        }
        i += 1;
    }
    assert(items@.take(i as int) =~= items@);
    guilds
}

/// What the user gets of a login: the account's name, and its guilds, none where the
/// site sends no list.
pub fn login_result(user_name: Option<String>, items: Option<Vec<Value>>) -> (r: LoginResult)
    ensures
        r.user_name == user_name,
        r.guilds@.map_values(|g: GuildOption| g@) == (match items {
            Some(items) => guilds_of(items@),
            None => Seq::empty(),
        }),
{
    let guilds = match items {
        Some(items) => guild_options(&items),
        None => {
            let none: Vec<GuildOption> = Vec::new();
            assert(none@.map_values(|g: GuildOption| g@) =~= Seq::<GuildView>::empty());
            none
        },
    };
    LoginResult { user_name, guilds }
}

/// The site to log in to: Warcraft Logs where none is named.
pub fn login_site(game: Option<String>) -> (r: String)
    ensures
        r@ == (match game {
            Some(game) => game@,
            None => "warcraft"@,
        }),
{
    match game {
        Some(game) => game,
        None => "warcraft".to_owned(),
    }
}

// ---- what the lists hold --------------------------------------------------------------

/// The extension of a log is one of the eight ways to write `txt`.
pub proof fn logs_end_in_txt(text: Seq<char>)
    ensures
        is_txt(Some(text)) <==> {
            ||| text == "txt"@
            ||| text == "txT"@
            ||| text == "tXt"@
            ||| text == "tXT"@
            ||| text == "Txt"@
            ||| text == "TxT"@
            ||| text == "TXt"@
            ||| text == "TXT"@
        },
        !is_txt(None),
{
    reveal_strlit("txt");
    reveal_strlit("txT");
    reveal_strlit("tXt");
    reveal_strlit("tXT");
    reveal_strlit("Txt");
    reveal_strlit("TxT");
    reveal_strlit("TXt");
    reveal_strlit("TXT");
    if is_txt(Some(text)) {
        assert(text =~= seq![text[0], text[1], text[2]]);
        assert(text =~= "txt"@ || text =~= "txT"@ || text =~= "tXt"@ || text =~= "tXT"@ || text
            =~= "Txt"@ || text =~= "TxT"@ || text =~= "TXt"@ || text =~= "TXT"@);
    }
}

/// The logs among entries are their files with a log's extension, in their order.
pub proof fn logs_are_the_text_files(a: Seq<ScanEntry>, entry: ScanEntry, b: Seq<ScanEntry>)
    ensures
        logs_in(Seq::empty()) == Seq::<FileView>::empty(),
        logs_in(a + b) == logs_in(a) + logs_in(b),
        ({
            let txt = entry.extension matches Some(text) && is_txt(Some(text@));
            logs_in(seq![entry]) == (if entry.is_file && txt {
                seq![entry.file@]
            } else {
                Seq::empty()
            })
        }),
    decreases b.len(),
{
    reveal_with_fuel(logs_in, 2);
    assert(seq![entry].drop_last() =~= Seq::<ScanEntry>::empty());
    assert(Seq::<FileView>::empty().push(entry.file@) =~= seq![entry.file@]);
    if b.len() == 0 {
        assert(a + b =~= a);
        assert(logs_in(a) + Seq::<FileView>::empty() =~= logs_in(a));
    } else {
        logs_are_the_text_files(a, entry, b.drop_last());
        assert((a + b).drop_last() =~= a + b.drop_last());
        assert((a + b).last() == b.last());
        assert(logs_in(a + b) =~= logs_in(a) + logs_in(b));
    }
}

/// Names are ordered by the first byte in which they differ; the front of a name comes
/// before it.
pub proof fn names_are_ordered_by_their_first_difference(
    front: Seq<u8>,
    x: u8,
    y: u8,
    a: Seq<u8>,
    b: Seq<u8>,
)
    ensures
        bytes_le(front, front + a),
        a.len() > 0 ==> !bytes_le(front + a, front),
        x < y ==> bytes_le(front + seq![x] + a, front + seq![y] + b),
        x < y ==> !bytes_le(front + seq![y] + b, front + seq![x] + a),
    decreases front.len(),
{
    let left = front + seq![x] + a;
    let right = front + seq![y] + b;
    if front.len() == 0 {
        assert(left[0] == x && right[0] == y);
    } else {
        let rest = front.drop_first();
        names_are_ordered_by_their_first_difference(rest, x, y, a, b);
        assert(left.drop_first() =~= rest + seq![x] + a);
        assert(right.drop_first() =~= rest + seq![y] + b);
        assert((front + a).drop_first() =~= rest + a);
        assert((front + a)[0] == front[0]);
        assert(left[0] == front[0] && right[0] == front[0]);
    }
}

/// A guild is read from an item with the number `value`: its id unless negative, its
/// label, empty where there is none, and its region.
pub proof fn guilds_are_read_from_their_fields(item: Value)
    ensures
        json::integer_field(item, "value"@) is None ==> guild_of(item) is None,
        json::integer_field(item, "value"@) matches Some(n) ==> (guild_of(item) matches Some(
            guild,
        ) && {
            &&& n < 0 ==> guild.id is None
            &&& n >= 0 ==> guild.id == Some(n)
            &&& json::text_field(item, "label"@) matches Some(label) ==> guild.label == label
            &&& json::text_field(item, "label"@) is None ==> guild.label.len() == 0
            &&& guild.region_id == json::integer_field(item, "regionId"@)
        }),
{
}

/// The guilds of a list are those of its items, in their order.
pub proof fn guilds_keep_their_order(a: Seq<Value>, item: Value, b: Seq<Value>)
    ensures
        guilds_of(Seq::empty()) == Seq::<GuildView>::empty(),
        guilds_of(a + b) == guilds_of(a) + guilds_of(b),
        guild_of(item) matches Some(guild) ==> guilds_of(seq![item]) == seq![guild],
        guild_of(item) is None ==> guilds_of(seq![item]) == Seq::<GuildView>::empty(),
    decreases b.len(),
{
    reveal_with_fuel(guilds_of, 2);
    assert(seq![item].drop_last() =~= Seq::<Value>::empty());
    if guild_of(item) is Some {
        assert(Seq::<GuildView>::empty().push(guild_of(item)->0) =~= seq![guild_of(item)->0]);
    }
    if b.len() == 0 {
        assert(a + b =~= a);
        assert(guilds_of(a) + Seq::<GuildView>::empty() =~= guilds_of(a));
    } else {
        guilds_keep_their_order(a, item, b.drop_last());
        assert((a + b).drop_last() =~= a + b.drop_last());
        assert((a + b).last() == b.last());
        assert(guilds_of(a + b) =~= guilds_of(a) + guilds_of(b));
    }
}

/// A file is described by its path, its name and its size; what is not known is empty or 0.
pub proof fn files_are_described(
    path: String,
    name: Option<String>,
    size: Option<u64>,
    file: FileInfo,
)
    requires
        call_ensures(describe_file, (path, name, size), file),
    ensures
        file@.path == path@,
        name matches Some(given) ==> file@.name == given@,
        name is None ==> file@.name.len() == 0,
        size matches Some(given) ==> file@.size == given,
        size is None ==> file@.size == 0,
{
}

/// The error for what is no file names it.
pub proof fn files_are_asked_for(path: &str, error: String)
    requires
        call_ensures(not_a_file, (path,), error),
    ensures
        error@ == "not a file: "@ + path@,
{
}

/// A login goes to the site that is named, and to Warcraft Logs where none is.
pub proof fn logins_go_to_the_site_that_is_named(game: Option<String>, site: String)
    requires
        call_ensures(login_site, (game,), site),
    ensures
        game matches Some(given) ==> site@ == given@,
        game is None ==> site@ == "warcraft"@,
{
}

/// A login gives the account's name and a guild for each item that describes one.
pub proof fn logins_give_name_and_guilds(
    user_name: Option<String>,
    items: Option<Vec<Value>>,
    login: LoginResult,
    i: int,
)
    requires
        call_ensures(login_result, (user_name, items), login),
    ensures
        login.user_name == user_name,
        items is None ==> login.guilds@.len() == 0,
        items matches Some(list) ==> {
            &&& login.guilds@.len() == guilds_of(list@).len()
            &&& 0 <= i < login.guilds@.len() ==> login.guilds@[i]@ == guilds_of(list@)[i]
        },
{
    let views = login.guilds@.map_values(|g: GuildOption| g@);
    assert(views.len() == login.guilds@.len());
    if 0 <= i < login.guilds@.len() {
        assert(views[i] == login.guilds@[i]@);
    }
}

/// A scan gives the logs of a folder, as many as there are, ordered by their names' bytes.
pub proof fn scans_give_the_logs_in_order(
    entries: &Vec<ScanEntry>,
    files: Vec<FileInfo>,
    i: int,
    j: int,
)
    requires
        call_ensures(scan_logs, (entries,), files),
        0 <= i <= j < files@.len(),
    ensures
        files@.len() == logs_in(entries@).len(),
        bytes_le(encode_utf8(files@[i].name@), encode_utf8(files@[j].name@)),
        logs_in(entries@).contains(files@[i]@),
{
    let sorted = views(files@);
    let logs = logs_in(entries@);
    assert(sorted[i] == files@[i]@ && sorted[j] == files@[j]@);
    assert(name_le(sorted[i].name, sorted[j].name));
    let name = sorted[i].name;
    let keep = |f: FileView| f.name == name;
    assert(named(sorted, name) == named(logs, name));
    sorted.lemma_filter_contains(keep, i);
    assert(named(logs, name).contains(sorted[i]));
    lemma_named_within(logs, name, sorted[i]);
}

proof fn lemma_named_within(files: Seq<FileView>, name: Seq<char>, file: FileView)
    requires
        named(files, name).contains(file),
    ensures
        files.contains(file),
    decreases files.len(),
{
    reveal(Seq::filter);
    let keep = |f: FileView| f.name == name;
    if files.len() > 0 {
        let less = files.drop_last();
        let k = choose|k: int| 0 <= k < named(files, name).len() && named(files, name)[k] == file;
        if files.last() == file {
            assert(files[files.len() - 1] == file);
        } else {
            assert(named(less, name)[k] == file);
            lemma_named_within(less, name, file);
            let m = choose|m: int| 0 <= m < less.len() && less[m] == file;
            assert(files[m] == file);
        }
    }
}

} // verus!
