//! The asset repository: decoded audio by label.
//!
//! Files are listed and decoded by the caller. The repository is told, for
//! each file, the stem of its name and the decoded audio, or that decoding
//! failed; it names the asset, refuses what it cannot name and keeps the
//! rest. A one-shot sample goes by the stem of its file. A loop goes by the
//! last part of a stem of the form `{native_tempo}_{beat_length}_{name}`.

use vstd::prelude::*;
use vstd::string::StrSliceExecFns;

verus! {

/// The number of sample files that are decoded side by side.
pub const SAMPLE_LOAD_WORKERS: usize = 4;

/// The number of loop files that are decoded side by side.
pub const LOOP_LOAD_WORKERS: usize = 16;

/// Whether `c` is one of the ten ASCII digits.
pub open spec fn is_digit(c: char) -> bool {
    '0' <= c <= '9'
}

/// The number that a run of ASCII digits writes in base ten.
pub open spec fn decimal_value(digits: Seq<char>) -> nat
    decreases digits.len(),
{
    if digits.len() == 0 {
        0
    } else {
        (decimal_value(digits.drop_last()) * 10 + (digits.last() as u32 - '0' as u32)) as nat
    }
}

/// Whether `digits` is a run of one or more ASCII digits.
pub open spec fn is_decimal(digits: Seq<char>) -> bool {
    digits.len() > 0 && forall|i: int| 0 <= i < digits.len() ==> is_digit(#[trigger] digits[i])
}

/// The text without one leading plus sign.
pub open spec fn unsigned(text: Seq<char>) -> Seq<char> {
    if text.len() > 0 && text[0] == '+' {
        text.subrange(1, text.len() as int)
    } else {
        text
    }
}

/// The number that `text` writes: an optional plus sign, then one or more
/// ASCII digits whose value fits in 32 bits. Any other text writes none.
pub open spec fn parse_u32_spec(text: Seq<char>) -> Option<u32> {
    let digits = unsigned(text);
    if is_decimal(digits) && decimal_value(digits) <= u32::MAX {
        Some(decimal_value(digits) as u32)
    } else {
        None
    }
}

/// A run of digits is worth at least as much as any of its beginnings.
proof fn lemma_decimal_grows(digits: Seq<char>, n: int)
    requires
        0 <= n <= digits.len(),
        forall|i: int| 0 <= i < digits.len() ==> is_digit(#[trigger] digits[i]),
    ensures
        decimal_value(digits.take(n)) <= decimal_value(digits),
    decreases digits.len() - n,
{
    if n == digits.len() {
        assert(digits.take(n) =~= digits);
    } else {
        let longer = digits.take(n + 1);
        assert(longer.drop_last() =~= digits.take(n));
        lemma_decimal_grows(digits, n + 1);
    }
}

/// Reads an unsigned decimal number of up to 32 bits.
pub fn parse_u32(text: &str) -> (value: Option<u32>)
    ensures
        value == parse_u32_spec(text@),
{
    let n: usize = text.unicode_len();
    let first: usize = if n > 0 && text.get_char(0) == '+' {
        1
    } else {
        0
    };
    let ghost digits = unsigned(text@);
    if first == n {
        return None;
    }
    let mut value: u64 = 0;
    let mut i: usize = first;
    while i < n
        invariant
            first <= i <= n,
            n == text@.len(),
            digits == unsigned(text@),
            digits =~= text@.subrange(first as int, n as int),
            forall|k: int| 0 <= k < i - first ==> is_digit(#[trigger] digits[k]),
            value == decimal_value(digits.take(i - first)),
            value <= u32::MAX,
        decreases n - i,
    {
        let c: char = text.get_char(i);
        if c < '0' || c > '9' {
            assert(!is_digit(digits[i - first]));
            return None;
        }
        proof {
            let longer = digits.take(i - first + 1);
            assert(longer.drop_last() =~= digits.take(i - first));
        }
        value = value * 10 + ((c as u32 - '0' as u32) as u64);
        if value > 0xffff_ffff {
            proof {
                if is_decimal(digits) {
                    lemma_decimal_grows(digits, i - first + 1);
                }
            }
            return None;
        }
        i += 1;
    }
    assert(digits.take(n - first) =~= digits);
    Some(value as u32)
}

/// Why a file gave no asset.
#[derive(Debug, PartialEq, Eq, Clone, Copy)]
pub enum AssetLoadError {
    /// The audio could not be decoded.
    Decode,
    /// The stem of a loop does not have three parts.
    InvalidName,
    /// The first part of the stem of a loop is not a tempo.
    InvalidTempo,
    /// The second part of the stem of a loop is not a length in beats.
    InvalidLength,
}

/// The places of `sep` in `text`, in rising order.
pub open spec fn separators(text: Seq<char>, sep: char) -> Seq<int>
    decreases text.len(),
{
    if text.len() == 0 {
        Seq::empty()
    } else if text.last() == sep {
        separators(text.drop_last(), sep).push(text.len() - 1)
    } else {
        separators(text.drop_last(), sep)
    }
}

/// The native tempo and the label that the stem of a loop file gives: the
/// stem is cut at its underscores, there must be three parts, the first
/// must be a tempo, the second a length in beats, and the last is the
/// label. Tempo and length are whole numbers of up to 32 bits; the length
/// is looked at and not kept.
pub open spec fn parse_loop_label_spec(stem: Seq<char>) -> Result<(u32, Seq<char>), AssetLoadError> {
    let cuts = separators(stem, '_');
    if cuts.len() != 2 {
        Err(AssetLoadError::InvalidName)
    } else {
        match parse_u32_spec(stem.subrange(0, cuts[0])) {
            Some(tempo) => match parse_u32_spec(stem.subrange(cuts[0] + 1, cuts[1])) {
                Some(_) => Ok((tempo, stem.subrange(cuts[1] + 1, stem.len() as int))),
                None => Err(AssetLoadError::InvalidLength),
            },
            None => Err(AssetLoadError::InvalidTempo),
        }
    }
}

/// The separators lie inside the text, each after the one before it.
proof fn lemma_separators_in_range(text: Seq<char>, sep: char)
    ensures
        forall|k: int|
            0 <= k < separators(text, sep).len() ==> 0 <= #[trigger] separators(text, sep)[k]
                < text.len(),
        forall|j: int, k: int|
            0 <= j < k < separators(text, sep).len() ==> #[trigger] separators(text, sep)[j]
                < #[trigger] separators(text, sep)[k],
    decreases text.len(),
{
    if text.len() > 0 {
        lemma_separators_in_range(text.drop_last(), sep);
        let all = separators(text, sep);
        let before = separators(text.drop_last(), sep);
        assert forall|k: int| 0 <= k < all.len() implies 0 <= #[trigger] all[k] < text.len() by {
            if k < before.len() {
                assert(all[k] == before[k]);
            }
        }
        assert forall|j: int, k: int| 0 <= j < k < all.len() implies #[trigger] all[j]
            < #[trigger] all[k] by {
            assert(all[j] == before[j]);
            if k < before.len() {
                assert(all[k] == before[k]);
            }
        }
    }
}

/// The contents of the result of [`parse_loop_label`].
pub open spec fn loop_label_view(r: Result<(u32, String), AssetLoadError>) -> Result<
    (u32, Seq<char>),
    AssetLoadError,
> {
    match r {
        Ok((tempo, label)) => Ok((tempo, label@)),
        Err(e) => Err(e),
    }
}

/// Reads the native tempo and the label out of the stem of a loop file, and
/// makes sure that the stem spells a length in beats between them.
pub fn parse_loop_label(stem: &str) -> (r: Result<(u32, String), AssetLoadError>)
    ensures
        loop_label_view(r) == parse_loop_label_spec(stem@),
{
    let n: usize = stem.unicode_len();
    let mut cuts: Vec<usize> = Vec::new();
    let mut i: usize = 0;
    while i < n
        invariant
            i <= n,
            n == stem@.len(),
            cuts.len() <= 3,
            cuts.len() == 3 ==> separators(stem@.take(i as int), '_').len() >= 3,
            cuts.len() < 3 ==> cuts@.map_values(|c: usize| c as int) == separators(
                stem@.take(i as int),
                '_',
            ),
        decreases n - i,
    {
        proof {
            let longer = stem@.take(i as int + 1);
            assert(longer.drop_last() =~= stem@.take(i as int));
        }
        if stem.get_char(i) == '_' && cuts.len() < 3 {
            cuts.push(i);
        }
        i += 1;
    }
    assert(stem@.take(n as int) =~= stem@);
    if cuts.len() != 2 {
        return Err(AssetLoadError::InvalidName);
    }
    proof {
        lemma_separators_in_range(stem@, '_');
    }
    match parse_u32(stem.substring_char(0, cuts[0])) {
        Some(tempo) => match parse_u32(stem.substring_char(cuts[0] + 1, cuts[1])) {
            Some(_) => Ok((tempo, stem.substring_char(cuts[1] + 1, n).to_owned())),
            None => Err(AssetLoadError::InvalidLength),
        },
        None => Err(AssetLoadError::InvalidTempo),
    }
}

/// Audio as the decoder hands it over.
#[derive(Debug, Clone, PartialEq, Eq)]
pub struct Decoded {
    /// Interleaved samples.
    pub pcm: Vec<i16>,
    pub channels: u16,
    pub sample_rate: u32,
}

/// One file of an asset directory.
#[derive(Debug, Clone, PartialEq, Eq)]
pub struct SourceFile {
    /// The file's name without directory and extension.
    pub stem: String,
    /// The decoded audio, or `None` where decoding failed.
    pub decoded: Option<Decoded>,
}

/// A loaded asset.
#[derive(Debug, Clone, PartialEq, Eq)]
pub struct AssetEntry {
    pub label: String,
    pub channels: u16,
    pub sample_rate: u32,
    /// Interleaved samples.
    pub pcm: Vec<i16>,
    /// The tempo a loop was recorded at, in beats per minute; `None` for a
    /// one-shot sample.
    pub native_tempo: Option<u32>,
}

/// A file that gave no asset, and why.
#[derive(Debug, Clone, PartialEq, Eq)]
pub struct LoadFailure {
    pub stem: String,
    pub error: AssetLoadError,
}

/// The mathematical content of a [`Decoded`].
pub struct DecodedView {
    pub pcm: Seq<i16>,
    pub channels: u16,
    pub sample_rate: u32,
}

/// The mathematical content of a [`SourceFile`].
pub struct SourceFileView {
    pub stem: Seq<char>,
    pub decoded: Option<DecodedView>,
}

/// The mathematical content of an [`AssetEntry`].
pub struct AssetView {
    pub label: Seq<char>,
    pub channels: u16,
    pub sample_rate: u32,
    pub pcm: Seq<i16>,
    pub native_tempo: Option<u32>,
}

/// The mathematical content of a [`LoadFailure`].
pub struct LoadFailureView {
    pub stem: Seq<char>,
    pub error: AssetLoadError,
}

impl View for Decoded {
    type V = DecodedView;

    open spec fn view(&self) -> DecodedView {
        DecodedView { pcm: self.pcm@, channels: self.channels, sample_rate: self.sample_rate }
    }
}

impl View for SourceFile {
    type V = SourceFileView;

    open spec fn view(&self) -> SourceFileView {
        SourceFileView {
            stem: self.stem@,
            decoded: match self.decoded {
                Some(d) => Some(d@),
                None => None,
            },
        }
    }
}

impl View for AssetEntry {
    type V = AssetView;

    open spec fn view(&self) -> AssetView {
        AssetView {
            label: self.label@,
            channels: self.channels,
            sample_rate: self.sample_rate,
            pcm: self.pcm@,
            native_tempo: self.native_tempo,
        }
    }
}

impl View for LoadFailure {
    type V = LoadFailureView;

    open spec fn view(&self) -> LoadFailureView {
        LoadFailureView { stem: self.stem@, error: self.error }
    }
}

/// The asset that a sample file gives: the decoded audio under the stem of
/// the file.
pub open spec fn load_sample_spec(file: SourceFileView) -> Result<AssetView, AssetLoadError> {
    match file.decoded {
        Some(d) => Ok(
            AssetView {
                label: file.stem,
                channels: d.channels,
                sample_rate: d.sample_rate,
                pcm: d.pcm,
                native_tempo: None,
            },
        ),
        None => Err(AssetLoadError::Decode),
    }
}

/// The asset that a loop file gives: the decoded audio under the label, and
/// with the native tempo, that the stem of the file spells out.
pub open spec fn load_loop_spec(file: SourceFileView) -> Result<AssetView, AssetLoadError> {
    match file.decoded {
        Some(d) => match parse_loop_label_spec(file.stem) {
            Ok((tempo, label)) => Ok(
                AssetView {
                    label,
                    channels: d.channels,
                    sample_rate: d.sample_rate,
                    pcm: d.pcm,
                    native_tempo: Some(tempo),
                },
            ),
            Err(e) => Err(e),
        },
        None => Err(AssetLoadError::Decode),
    }
}

/// The contents of the result of a load.
pub open spec fn load_view(r: Result<AssetEntry, LoadFailure>) -> Result<AssetView, AssetLoadError> {
    match r {
        Ok(entry) => Ok(entry@),
        Err(failure) => Err(failure.error),
    }
}

/// Makes the asset of a sample file.
pub fn load_sample(file: SourceFile) -> (r: Result<AssetEntry, LoadFailure>)
    ensures
        load_view(r) == load_sample_spec(file@),
        r matches Err(failure) ==> failure.stem@ == file.stem@,
{
    match file.decoded {
        Some(d) => Ok(
            AssetEntry {
                label: file.stem,
                channels: d.channels,
                sample_rate: d.sample_rate,
                pcm: d.pcm,
                native_tempo: None,
            },
        ),
        None => Err(LoadFailure { stem: file.stem, error: AssetLoadError::Decode }),
    }
}

/// Makes the asset of a loop file.
pub fn load_loop(file: SourceFile) -> (r: Result<AssetEntry, LoadFailure>)
    ensures
        load_view(r) == load_loop_spec(file@),
        r matches Err(failure) ==> failure.stem@ == file.stem@,
{
    match file.decoded {
        Some(d) => match parse_loop_label(file.stem.as_str()) {
            Ok((tempo, label)) => Ok(
                AssetEntry {
                    label,
                    channels: d.channels,
                    sample_rate: d.sample_rate,
                    pcm: d.pcm,
                    native_tempo: Some(tempo),
                },
            ),
            Err(error) => Err(LoadFailure { stem: file.stem, error }),
        },
        None => Err(LoadFailure { stem: file.stem, error: AssetLoadError::Decode }),
    }
}

/// Assets by label. No label occurs twice.
#[derive(Debug)]
pub struct AssetTable {
    entries: Vec<AssetEntry>,
}

impl AssetTable {
    #[verifier::type_invariant]
    spec fn labels_differ(&self) -> bool {
        forall|i: int, j: int|
            0 <= i < j < self.entries.len() ==> (#[trigger] self.entries[i]).label@
                != (#[trigger] self.entries[j]).label@
    }

    /// Whether entry `i` goes by `label`.
    spec fn at(&self, label: Seq<char>, i: int) -> bool {
        0 <= i < self.entries.len() && self.entries[i].label@ == label
    }

    /// The asset of each label.
    pub closed spec fn view(&self) -> Map<Seq<char>, AssetView> {
        Map::new(
            |label: Seq<char>| exists|i: int| self.at(label, i),
            |label: Seq<char>| self.entries[choose|i: int| self.at(label, i)]@,
        )
    }

    /// A table without assets.
    pub fn new() -> (table: AssetTable)
        ensures
            table@ == Map::<Seq<char>, AssetView>::empty(),
    {
        let table = AssetTable { entries: Vec::new() };
        table
    }

    /// The place of the entry that goes by `label`.
    fn find(&self, label: &String) -> (place: Option<usize>)
        ensures
            match place {
                Some(i) => self.at(label@, i as int),
                None => forall|i: int| !self.at(label@, i),
            },
    {
        let mut i: usize = 0;
        while i < self.entries.len()
            invariant
                i <= self.entries.len(),
                forall|k: int| 0 <= k < i ==> !self.at(label@, k),
            decreases self.entries.len() - i,
        {
            if self.entries[i].label == *label {
                return Some(i);
            }
            i += 1;
        }
        None
    }

    /// The asset that goes by `label`.
    pub fn get(&self, label: &str) -> (found: Option<&AssetEntry>)
        ensures
            match found {
                Some(entry) => self@.contains_key(label@) && entry@ == self@[label@],
                None => !self@.contains_key(label@),
            },
    {
        let key = label.to_owned();
        proof {
            use_type_invariant(self);
        }
        match self.find(&key) {
            Some(i) => {
                proof {
                    let c = choose|c: int| self.at(label@, c);
                }
                Some(&self.entries[i])
            },
            None => None,
        }
    }

    /// The table with `entry` under its label, in place of the asset that
    /// went by that label, if there was one.
    pub fn insert(self, entry: AssetEntry) -> (table: AssetTable)
        ensures
            table@ == self@.insert(entry.label@, entry@),
    {
        proof {
            use_type_invariant(&self);
        }
        let ghost label = entry.label@;
        let ghost asset = entry@;
        let place = self.find(&entry.label);
        let mut entries = self.entries;
        match place {
            Some(i) => {
                entries.set(i, entry);
            },
            None => {
                entries.push(entry);
            },
        }
        assert forall|a: int, b: int| 0 <= a < b < entries.len() implies (#[trigger] entries[a]).label@
            != (#[trigger] entries[b]).label@ by {
            match place {
                Some(i) => {
                    assert(self.at(label, i as int));
                    assert(entries[a].label@ == self.entries[a].label@);
                    assert(entries[b].label@ == self.entries[b].label@);
                },
                None => {
                    assert(entries[a] == self.entries[a]);
                    if b < self.entries.len() {
                        assert(entries[b] == self.entries[b]);
                    } else {
                        assert(!self.at(label, a));
                    }
                },
            }
        }
        let table = AssetTable { entries };
        proof {
            assert forall|l: Seq<char>, k: int|
                table.at(l, k) <==> (self.at(l, k) || (place is None && k == self.entries.len()
                    && l == label)) by {}
            assert forall|l: Seq<char>| #[trigger]
                table@.contains_key(l) <==> self@.insert(label, asset).contains_key(l) by {
                if self@.contains_key(l) {
                    let k = choose|k: int| self.at(l, k);
                    assert(table.at(l, k));
                }
                if l == label {
                    if place is None {
                        assert(table.at(l, self.entries.len() as int));
                    } else {
                        assert(table.at(l, place->0 as int));
                    }
                }
            }
            assert forall|l: Seq<char>| #[trigger] table@.contains_key(l) implies table@[l]
                == self@.insert(label, asset)[l] by {
                let k = choose|k: int| table.at(l, k);
                if l != label {
                    let b = choose|b: int| self.at(l, b);
                    assert(self.at(l, k));
                    assert(b == k);
                } else if place is Some {
                    assert(table.at(l, place->0 as int));
                    assert(k == place->0);
                } else {
                    assert(!self.at(l, k));
                }
            }
            assert(table@ =~= self@.insert(label, asset));
        }
        table
    }
}

/// The two kinds of asset.
#[derive(Debug, PartialEq, Eq, Clone, Copy)]
pub enum AssetKind {
    /// A one-shot sample.
    Sample,
    /// A loop with a native tempo.
    Loop,
}

/// The asset that a file of the given kind gives.
pub open spec fn load_spec(file: SourceFileView, kind: AssetKind) -> Result<
    AssetView,
    AssetLoadError,
> {
    match kind {
        AssetKind::Sample => load_sample_spec(file),
        AssetKind::Loop => load_loop_spec(file),
    }
}

/// The assets that a run of files gives. Where two files give the same
/// label the later file stands.
pub open spec fn collect_spec(files: Seq<SourceFileView>, kind: AssetKind) -> Map<
    Seq<char>,
    AssetView,
>
    decreases files.len(),
{
    if files.len() == 0 {
        Map::empty()
    } else {
        let before = collect_spec(files.drop_last(), kind);
        match load_spec(files.last(), kind) {
            Ok(asset) => before.insert(asset.label, asset),
            Err(_) => before,
        }
    }
}

/// The files of a run that give no asset, in order, each with the reason.
pub open spec fn failures_spec(files: Seq<SourceFileView>, kind: AssetKind) -> Seq<
    LoadFailureView,
>
    decreases files.len(),
{
    if files.len() == 0 {
        Seq::empty()
    } else {
        let before = failures_spec(files.drop_last(), kind);
        match load_spec(files.last(), kind) {
            Ok(_) => before,
            Err(error) => before.push(LoadFailureView { stem: files.last().stem, error }),
        }
    }
}

/// The contents of a list of files.
pub open spec fn files_view(files: Seq<SourceFile>) -> Seq<SourceFileView> {
    files.map_values(|f: SourceFile| f@)
}

/// The contents of a list of failures.
pub open spec fn failures_view(failures: Seq<LoadFailure>) -> Seq<LoadFailureView> {
    failures.map_values(|f: LoadFailure| f@)
}

/// Every loop that was collected has a native tempo.
pub proof fn lemma_loops_have_tempo(files: Seq<SourceFileView>, label: Seq<char>)
    requires
        collect_spec(files, AssetKind::Loop).contains_key(label),
    ensures
        collect_spec(files, AssetKind::Loop)[label].native_tempo is Some,
    decreases files.len(),
{
    if files.len() > 0 {
        match load_spec(files.last(), AssetKind::Loop) {
            Ok(asset) => {
                if asset.label != label {
                    lemma_loops_have_tempo(files.drop_last(), label);
                }
            },
            Err(_) => {
                lemma_loops_have_tempo(files.drop_last(), label);
            },
        }
    }
}

/// A file that gives no asset takes nothing from the others: with or
/// without it among them, the same assets are collected.
pub proof fn lemma_failed_file_is_left_out(
    front: Seq<SourceFileView>,
    file: SourceFileView,
    back: Seq<SourceFileView>,
    kind: AssetKind,
)
    requires
        load_spec(file, kind) is Err,
    ensures
        collect_spec(front + seq![file] + back, kind) == collect_spec(front + back, kind),
    decreases back.len(),
{
    let with = front + seq![file] + back;
    let without = front + back;
    if back.len() == 0 {
        assert(with.drop_last() =~= front);
        assert(without =~= front);
    } else {
        lemma_failed_file_is_left_out(front, file, back.drop_last(), kind);
        assert(with.drop_last() =~= front + seq![file] + back.drop_last());
        assert(without.drop_last() =~= front + back.drop_last());
    }
}

/// Loads every file and keeps what loads.
fn collect(files: Vec<SourceFile>, kind: AssetKind) -> (r: (AssetTable, Vec<LoadFailure>))
    ensures
        r.0@ == collect_spec(files_view(files@), kind),
        failures_view(r.1@) == failures_spec(files_view(files@), kind),
{
    let ghost all = files@;
    let mut table = AssetTable::new();
    let mut failures: Vec<LoadFailure> = Vec::new();
    for file in it: files
        invariant
            it.seq() == all,
            table@ == collect_spec(files_view(all).take(it.index()), kind),
            failures_view(failures@) == failures_spec(files_view(all).take(it.index()), kind),
    {
        proof {
            let longer = files_view(all).take(it.index() + 1);
            assert(longer.drop_last() =~= files_view(all).take(it.index()));
        }
        let loaded = match kind {
            AssetKind::Sample => load_sample(file),
            AssetKind::Loop => load_loop(file),
        };
        match loaded {
            Ok(entry) => {
                table = table.insert(entry);
            },
            Err(failure) => {
                failures.push(failure);
            },
        }
    }
    assert(files_view(all).take(all.len() as int) =~= files_view(all));
    (table, failures)
}

/// The one-shot samples, by label.
#[derive(Debug)]
pub struct SoundBank {
    table: AssetTable,
}

impl SoundBank {
    /// The sample of each label.
    pub closed spec fn view(&self) -> Map<Seq<char>, AssetView> {
        self.table@
    }

    /// The bank of the samples in `files`, and the files that gave none.
    /// A file whose audio was not decoded gives none; every other file
    /// gives the sample that goes by the stem of the file.
    pub fn new(files: Vec<SourceFile>) -> (r: (SoundBank, Vec<LoadFailure>))
        ensures
            r.0@ == collect_spec(files_view(files@), AssetKind::Sample),
            failures_view(r.1@) == failures_spec(files_view(files@), AssetKind::Sample),
    {
        let (table, failures) = collect(files, AssetKind::Sample);
        (SoundBank { table }, failures)
    }

    /// The sample that goes by `label`.
    pub fn get(&self, label: &str) -> (found: Option<&AssetEntry>)
        ensures
            match found {
                Some(entry) => self@.contains_key(label@) && entry@ == self@[label@],
                None => !self@.contains_key(label@),
            },
    {
        self.table.get(label)
    }
}

/// The loops, by label. Every loop has a native tempo.
#[derive(Debug)]
pub struct LoopBank {
    table: AssetTable,
}

impl LoopBank {
    #[verifier::type_invariant]
    spec fn loops_have_tempo(&self) -> bool {
        forall|label: Seq<char>| #[trigger]
            self.table@.contains_key(label) ==> self.table@[label].native_tempo is Some
    }

    /// The loop of each label.
    pub closed spec fn view(&self) -> Map<Seq<char>, AssetView> {
        self.table@
    }

    /// The bank of the loops in `files`, and the files that gave none. A
    /// file whose audio was not decoded gives none, nor does one whose stem
    /// is not of the form `{native_tempo}_{beat_length}_{name}`; every other
    /// file gives the loop that goes by the name in its stem.
    pub fn new(files: Vec<SourceFile>) -> (r: (LoopBank, Vec<LoadFailure>))
        ensures
            r.0@ == collect_spec(files_view(files@), AssetKind::Loop),
            failures_view(r.1@) == failures_spec(files_view(files@), AssetKind::Loop),
    {
        let (table, failures) = collect(files, AssetKind::Loop);
        proof {
            assert forall|label: Seq<char>| #[trigger]
                table@.contains_key(label) implies table@[label].native_tempo is Some by {
                lemma_loops_have_tempo(files_view(files@), label);
            }
        }
        (LoopBank { table }, failures)
    }

    /// The loop that goes by `label`.
    pub fn get(&self, label: &str) -> (found: Option<&AssetEntry>)
        ensures
            match found {
                Some(entry) => self@.contains_key(label@) && entry@ == self@[label@]
                    && entry.native_tempo is Some,
                None => !self@.contains_key(label@),
            },
    {
        proof {
            use_type_invariant(self);
        }
        self.table.get(label)
    }
}

} // verus!
