//! The game's process: finding it and searching its code.

use pelite::pattern::{Atom, ParsePatError};
use pelite::pe64::{Pe, PeObject, PeView};
use vstd::prelude::*;
use crate::memory;
use crate::memory::{decode_u32, read_process_bytes, Memory};
use crate::outcome;
use crate::text;
use crate::text::{characters, units_name};

verus! {

/// The error of `pelite::pattern::parse`.
#[verifier::external_type_specification]
#[verifier::external_body]
pub struct ExParsePatError(pelite::pattern::ParsePatError);

/// One instruction of a parsed signature.
#[verifier::external_type_specification]
#[verifier::external_body]
pub struct ExAtom(pelite::pattern::Atom);

/// A view of the image of a loaded module: the run of bytes that it spans.
#[verifier::external_type_specification]
#[verifier::external_body]
pub struct ExPeView<'a>(pelite::pe64::PeView<'a>);

/// The bytes that a view of an image holds.
pub uninterp spec fn image_of(view: PeView<'_>) -> Seq<u8>;

/// Calls `PeView::image`, which gives the bytes that the view holds.
#[verifier::external_body]
fn image_bytes<'a>(view: &PeView<'a>) -> (bytes: &'a [u8])
    ensures
        bytes@ == image_of(*view),
{
    view.image()
}

/// What `pelite::pattern::parse` makes of a signature.
pub uninterp spec fn parsed_pattern(signature: Seq<char>) -> Result<Seq<Atom>, ParsePatError>;

/// Whether what follows a text stands inside a quotation that the text opens.
pub open spec fn in_quotation(text: Seq<char>) -> bool
    decreases text.len(),
{
    if text.len() == 0 {
        false
    } else if text.last() == '"' {
        !in_quotation(text.drop_last())
    } else {
        in_quotation(text.drop_last())
    }
}

/// How often a character occurs in a text outside quotations.
pub open spec fn occurrences(text: Seq<char>, c: char) -> nat
    decreases text.len(),
{
    if text.len() == 0 {
        0
    } else {
        let earlier = occurrences(text.drop_last(), c);
        if text.last() == c && !in_quotation(text.drop_last()) {
            earlier + 1
        } else {
            earlier
        }
    }
}

/// A character occurs at most as often as there are characters.
proof fn lemma_occurrences(text: Seq<char>, c: char)
    ensures
        occurrences(text, c) <= text.len(),
    decreases text.len(),
{
    if text.len() > 0 {
        lemma_occurrences(text.drop_last(), c);
    }
}

/// Whether a text demands at `i`, outside quotations, an alignment that is no
/// 32-bit power of two.
pub open spec fn misaligned_at(text: Seq<char>, i: int) -> bool {
    &&& text[i] == '@' && !in_quotation(text.take(i))
    &&& i + 1 < text.len()
    &&& 'w' <= text[i + 1] <= 'z' || 'W' <= text[i + 1] <= 'Z'
}

/// Whether a signature stays within what its parser and the scanner can take.
/// They count open braces in a byte and recurse into each, and they recurse
/// into each skip of a varying width, the only place for a hyphen. An alignment
/// is the exponent of a 32-bit power of two. Quoted text is matched as it
/// stands and is not limited.
pub open spec fn is_scannable(signature: Seq<char>) -> bool {
    &&& occurrences(signature, '{') < 256
    &&& occurrences(signature, '-') < 256
    &&& forall|i: int| 0 <= i < signature.len() ==> !#[trigger] misaligned_at(signature, i)
}

/// A short signature without alignments can be scanned for.
pub proof fn lemma_short_signature(signature: Seq<char>)
    requires
        signature.len() < 256,
        forall|i: int| 0 <= i < signature.len() ==> #[trigger] signature[i] != '@',
    ensures
        is_scannable(signature),
{
    lemma_occurrences(signature, '{');
    lemma_occurrences(signature, '-');
}

/// Whether a signature stays within what its parser and the scanner can take.
pub fn can_scan(signature: &str) -> (result: bool)
    ensures
        result == is_scannable(signature@),
{
    let chars = characters(signature);
    let mut braces: usize = 0;
    let mut ranges: usize = 0;
    let mut quoted = false;
    let mut i: usize = 0;
    assert(chars@.take(0) =~= Seq::empty());
    while i < chars.len()
        invariant
            chars@ == signature@,
            i <= chars@.len(),
            quoted == in_quotation(chars@.take(i as int)),
            braces == occurrences(chars@.take(i as int), '{'),
            ranges == occurrences(chars@.take(i as int), '-'),
            braces <= i,
            ranges <= i,
            forall|j: int| 0 <= j < i ==> !#[trigger] misaligned_at(chars@, j),
        decreases chars@.len() - i,
    {
        assert(chars@.take(i + 1).drop_last() =~= chars@.take(i as int));
        let c = chars[i];
        if !quoted && c == '{' {
            braces = braces + 1;
        }
        if !quoted && c == '-' {
            ranges = ranges + 1;
        }
        if !quoted && c == '@' && i + 1 < chars.len() {
            let next = chars[i + 1];
            if 'w' <= next && next <= 'z' || 'W' <= next && next <= 'Z' {
                assert(misaligned_at(signature@, i as int));
                return false;
            }
        }
        if c == '"' {
            quoted = !quoted;
        }
        i = i + 1;
    }
    assert(chars@.take(i as int) =~= chars@);
    braces < 256 && ranges < 256
}

/// `pelite::pattern::parse`: what it returns depends on the signature alone.
pub assume_specification[ pelite::pattern::parse ](pat: &str) -> (parsed: Result<
    Vec<Atom>,
    ParsePatError,
>)
    requires
        is_scannable(pat@),
    ensures
        match parsed {
            Ok(atoms) => parsed_pattern(pat@) == Ok::<Seq<Atom>, ParsePatError>(atoms@),
            Err(error) => parsed_pattern(pat@) == Err::<Seq<Atom>, ParsePatError>(error),
        },
;

/// The 32-bit word at an offset of an image.
pub open spec fn image_word(image: Seq<u8>, offset: int) -> nat {
    memory::little_endian(image.subrange(offset, offset + 4))
}

/// Where an image says that its headers are.
pub const HEADER_POINTER_OFFSET: usize = 0x3C;

/// Where the headers say how much code there is.
pub const CODE_SIZE_OFFSET: usize = 0x1C;

/// Where the headers say where the code begins.
pub const CODE_BASE_OFFSET: usize = 0x2C;

/// Whether the code that an image declares begins inside the image and ends
/// within reach of a 32-bit offset.
pub open spec fn code_in_image(image: Seq<u8>) -> bool {
    let headers = image_word(image, HEADER_POINTER_OFFSET as int) as int;
    let base = image_word(image, headers + CODE_BASE_OFFSET);
    let size = image_word(image, headers + CODE_SIZE_OFFSET);
    &&& HEADER_POINTER_OFFSET + 4 <= image.len() <= u32::MAX
    &&& headers + CODE_BASE_OFFSET + 4 <= image.len()
    &&& base <= image.len()
    &&& base + size <= u32::MAX
}

/// The matches that pelite's scanner finds in the code of an image: for each
/// one where it begins and the first address that the signature captures.
pub uninterp spec fn code_matches(image: Seq<u8>, atoms: Seq<Atom>) -> Seq<(u32, u32)>;

/// Runs `Scanner::matches_code` of pelite over an image, with one save array
/// of eight entries for all matches. What it finds depends on the bytes of the
/// image and on the atoms alone. The scanner runs any atoms that it is given and
/// fails on some that no signature parses to, so the atoms have to come from
/// one.
#[verifier::external_body]
fn scan_code(view: &PeView<'_>, atoms: &[Atom]) -> (found: Vec<(u32, u32)>)
    requires
        code_in_image(image_of(*view)),
        exists|signature: Seq<char>|
            is_scannable(signature) && #[trigger] parsed_pattern(signature) == Ok::<
                Seq<Atom>,
                ParsePatError,
            >(atoms@),
    ensures
        found@ == code_matches(image_of(*view), atoms@),
{
    let scanner = view.scanner();
    let mut found = Vec::new();
    let mut save = [0u32; 8];
    let mut matches = scanner.matches_code(atoms);
    while matches.next(&mut save) {
        found.push((save[0], save[1]));
    }
    found
}

/// Whether the code that an image declares lies within reach of the scanner.
pub fn has_code_in_image(image: &[u8]) -> (result: bool)
    ensures
        result == code_in_image(image@),
{
    assert(image@.len() == image.len());
    let length: u64 = image.len() as u64;
    if length > 0xFFFF_FFFF || image.len() < HEADER_POINTER_OFFSET + 4 {
        return false;
    }
    let headers: u64 = decode_u32(image, HEADER_POINTER_OFFSET) as u64;
    if headers + CODE_BASE_OFFSET as u64 + 4 > length {
        return false;
    }
    let base: u64 = decode_u32(image, headers as usize + CODE_BASE_OFFSET) as u64;
    let size: u64 = decode_u32(image, headers as usize + CODE_SIZE_OFFSET) as u64;
    base <= length && base + size <= 0xFFFF_FFFF
}

/// Why a search came to nothing.
#[derive(Debug)]
pub enum SearchError {
    /// The signature does not parse.
    InvalidPattern(ParsePatError),
    /// The code that the image declares does not lie in the image.
    BadImage,
    /// The signature matches nowhere.
    NoMatch,
}

/// The matches of a signature, if there is any way to look for them.
fn matches_of(view: &PeView<'_>, signature: &str) -> (found: Result<Vec<(u32, u32)>, SearchError>)
    requires
        is_scannable(signature@),
    ensures
        searched(image_of(*view), signature@, |m: Seq<(u32, u32)>| Some(m)) == (match found {
            Ok(m) => Ok::<Seq<(u32, u32)>, SearchError>(m@),
            Err(error) => Err(error),
        }),
{
    let atoms = match pelite::pattern::parse(signature) {
        Ok(atoms) => atoms,
        Err(error) => return Err(SearchError::InvalidPattern(error)),
    };
    if !has_code_in_image(image_bytes(view)) {
        return Err(SearchError::BadImage);
    }
    Ok(scan_code(view, atoms.as_slice()))
}

/// What comes of searching an image for a signature and choosing from the
/// matches.
pub open spec fn searched<T>(
    image: Seq<u8>,
    signature: Seq<char>,
    choice: spec_fn(Seq<(u32, u32)>) -> Option<T>,
) -> Result<T, SearchError> {
    match parsed_pattern(signature) {
        Err(error) => Err(SearchError::InvalidPattern(error)),
        Ok(atoms) => if code_in_image(image) {
            chosen(choice(code_matches(image, atoms)))
        } else {
            Err(SearchError::BadImage)
        },
    }
}

/// A choice from the matches, or the error that there was none to make.
pub open spec fn chosen<T>(choice: Option<T>) -> Result<T, SearchError> {
    match choice {
        Some(value) => Ok(value),
        None => Err(SearchError::NoMatch),
    }
}

/// An address in a module that is loaded at `base`.
pub open spec fn loaded(base: u64, offset: u32) -> u64 {
    base.wrapping_add(offset as u64)
}

/// The address that the last match captured.
pub open spec fn last_capture(base: u64, matches: Seq<(u32, u32)>) -> Option<u64> {
    if matches.len() == 0 {
        None
    } else {
        Some(loaded(base, matches.last().1))
    }
}

/// The address at which the first match begins.
pub open spec fn first_match(base: u64, matches: Seq<(u32, u32)>) -> Option<u64> {
    if matches.len() == 0 {
        None
    } else {
        Some(loaded(base, matches[0].0))
    }
}

/// The address that the first match captured.
pub open spec fn first_capture(base: u64, matches: Seq<(u32, u32)>) -> Option<u64> {
    if matches.len() == 0 {
        None
    } else {
        Some(loaded(base, matches[0].1))
    }
}

/// Takes the address that the last match captured.
pub fn take_last_capture(base: u64, matches: &[(u32, u32)]) -> (address: Option<u64>)
    ensures
        address == last_capture(base, matches@),
{
    if matches.len() == 0 {
        None
    } else {
        Some(base.wrapping_add(matches[matches.len() - 1].1 as u64))
    }
}

/// Takes the address at which the first match begins.
pub fn take_first_match(base: u64, matches: &[(u32, u32)]) -> (address: Option<u64>)
    ensures
        address == first_match(base, matches@),
{
    if matches.len() == 0 {
        None
    } else {
        Some(base.wrapping_add(matches[0].0 as u64))
    }
}

/// Takes the address that the first match captured.
pub fn take_first_capture(base: u64, matches: &[(u32, u32)]) -> (address: Option<u64>)
    ensures
        address == first_capture(base, matches@),
{
    if matches.len() == 0 {
        None
    } else {
        Some(base.wrapping_add(matches[0].1 as u64))
    }
}

/// A process, as far as its main module goes.
#[derive(Clone, Copy, Debug)]
pub struct Process {
    /// Where the module is loaded.
    pub base_address: u64,
    /// The system's handle of the module.
    pub module_handle: u64,
}

impl Process {
    /// Searches the module's image for a signature that captures an address and
    /// returns what the last match captured, such as a called function.
    pub fn search_address(&self, view: &PeView<'_>, signature_pattern: &str) -> (address: Result<
        u64,
        SearchError,
    >)
        requires
            is_scannable(signature_pattern@),
        ensures
            address == searched(
                image_of(*view),
                signature_pattern@,
                |m: Seq<(u32, u32)>| last_capture(self.base_address, m),
            ),
    {
        match matches_of(view, signature_pattern) {
            Ok(matches) => match take_last_capture(self.base_address, matches.as_slice()) {
                Some(address) => Ok(address),
                None => Err(SearchError::NoMatch),
            },
            Err(error) => Err(error),
        }
    }

    /// Searches the module's image and returns the address at which the first
    /// match of the signature begins. This is for signatures that tell a
    /// function by its first instructions.
    pub fn search_match_address(&self, view: &PeView<'_>, signature_pattern: &str) -> (address: Result<
        u64,
        SearchError,
    >)
        requires
            is_scannable(signature_pattern@),
        ensures
            address == searched(
                image_of(*view),
                signature_pattern@,
                |m: Seq<(u32, u32)>| first_match(self.base_address, m),
            ),
    {
        match matches_of(view, signature_pattern) {
            Ok(matches) => match take_first_match(self.base_address, matches.as_slice()) {
                Some(address) => Ok(address),
                None => Err(SearchError::NoMatch),
            },
            Err(error) => Err(error),
        }
    }

    /// Searches the module's image for a signature that captures the address
    /// of a value and reads the `size` bytes of that value. Gives `Ok(None)`
    /// where the memory there cannot be read.
    pub fn search_slice<M: Memory>(
        &self,
        memory: &M,
        view: &PeView<'_>,
        signature_pattern: &str,
        size: usize,
    ) -> (value: Result<Option<Vec<u8>>, SearchError>)
        requires
            is_scannable(signature_pattern@),
        ensures
            captured_values(
                self.base_address,
                memory,
                image_of(*view),
                signature_pattern@,
                size,
            ).contains(value_view(value)),
    {
        let found = match matches_of(view, signature_pattern) {
            Ok(matches) => match take_first_capture(self.base_address, matches.as_slice()) {
                Some(address) => Ok(address),
                None => Err(SearchError::NoMatch),
            },
            Err(error) => Err(error),
        };
        assert(found == searched(
            image_of(*view),
            signature_pattern@,
            |m: Seq<(u32, u32)>| first_capture(self.base_address, m),
        ));
        match found {
            Ok(address) => {
                let bytes = read_process_bytes(memory, address, size);
                assert(memory::bytes_at(memory, address, size).contains(memory::bytes_view(bytes)));
                Ok(bytes)
            },
            Err(error) => Err(error),
        }
    }

    /// Finds a process by its name. The process with the given number, which is
    /// the one that this code runs in, comes first where several processes have
    /// that name, and the others follow in the system's order. The result is
    /// the first of them whose modules can be listed and hold one of that name.
    pub fn with_name<E, F: Fn(u32) -> Result<Vec<ModuleEntry>, E>>(
        name: &str,
        current_pid: u32,
        processes: Result<Vec<ProcessEntry>, E>,
        modules_of: F,
    ) -> (process: Result<Process, ProcessError<E>>)
        requires
            forall|pid: u32| call_requires(modules_of, (pid,)),
        ensures
            with_name_outcomes(name@, current_pid, processes, modules_of).contains(process),
    {
        let entries = match processes {
            Ok(entries) => entries,
            Err(error) => return Err(ProcessError::ProcessSnapshotError(error)),
        };
        let candidates = candidate_pids(&entries, name);
        if candidates.len() == 0 {
            return Err(ProcessError::ProcessNotFound);
        }
        let ordered = order_candidates(&candidates, current_pid);
        let ghost all = attempts(name@, ordered@, modules_of, None);
        let mut last_snapshot_error: Option<E> = None;
        let mut i: usize = 0;
        assert(ordered@.skip(0) =~= ordered@);
        while i < ordered.len()
            invariant
                i <= ordered@.len(),
                forall|pid: u32| call_requires(modules_of, (pid,)),
                all == with_name_outcomes(name@, current_pid, processes, modules_of),
                forall|r: Result<Process, ProcessError<E>>| #[trigger]
                    attempts(name@, ordered@.skip(i as int), modules_of, last_snapshot_error).contains(
                        r,
                    ) ==> all.contains(r),
            decreases ordered@.len() - i,
        {
            let ghost pids = ordered@.skip(i as int);
            let ghost rest = ordered@.skip(i + 1);
            assert(pids.drop_first() =~= rest);
            let ghost before = last_snapshot_error;
            let reply = modules_of(ordered[i]);
            let ghost answer = reply;
            let ghost next = match answer {
                Ok(_) => before,
                Err(error) => Some(error),
            };
            assert(call_ensures(modules_of, (pids[0],), answer));
            assert forall|r: Result<Process, ProcessError<E>>|
                !(answer matches Ok(m) && module_named(m@, name@) is Some) && #[trigger] attempts(
                    name@,
                    rest,
                    modules_of,
                    next,
                ).contains(r) implies all.contains(r) by {
                assert(attempts(name@, pids, modules_of, before).contains(r));
            }
            match reply {
                Ok(modules) => {
                    if let Some(process) = find_module(&modules, name) {
                        assert(attempts(name@, pids, modules_of, before).contains(Ok(process)));
                        return Ok(process);
                    }
                },
                Err(error) => {
                    last_snapshot_error = Some(error);
                },
            }
            i = i + 1;
        }
        assert(ordered@.skip(i as int) =~= Seq::empty());
        let result = match last_snapshot_error {
            Some(error) => Err(ProcessError::ModuleSnapshotError(error)),
            None => Err(ProcessError::ProcessNotFound),
        };
        assert(attempts(name@, ordered@.skip(i as int), modules_of, last_snapshot_error).contains(
            result,
        ));
        result
    }
}

/// What the value of a search says.
pub open spec fn value_view(value: Result<Option<Vec<u8>>, SearchError>) -> Result<
    Option<Seq<u8>>,
    SearchError,
> {
    match value {
        Ok(Some(bytes)) => Ok(Some(bytes@)),
        Ok(None) => Ok(None),
        Err(error) => Err(error),
    }
}

/// The outcomes of reading the value whose address the first match captures.
pub open spec fn captured_values<M: Memory>(
    base: u64,
    memory: &M,
    image: Seq<u8>,
    signature: Seq<char>,
    size: usize,
) -> Set<Result<Option<Seq<u8>>, SearchError>> {
    match searched(image, signature, |m: Seq<(u32, u32)>| first_capture(base, m)) {
        Ok(address) => outcome::mapped(
            memory::bytes_at(memory, address, size),
            |bytes: Option<Seq<u8>>| Ok::<Option<Seq<u8>>, SearchError>(bytes),
        ),
        Err(error) => outcome::exactly(Err(error)),
    }
}

/// One process in the system's list.
#[derive(Clone, Debug)]
pub struct ProcessEntry {
    /// The name of the executable, as UTF-16 units that NULs may follow.
    pub exe_file: Vec<u16>,
    /// The number of the process.
    pub process_id: u32,
}

/// One module in the system's list of a process.
#[derive(Clone, Debug)]
pub struct ModuleEntry {
    /// The name of the module, as UTF-16 units that NULs may follow.
    pub module: Vec<u16>,
    /// Where the module is loaded.
    pub base_address: u64,
    /// The system's handle of the module.
    pub module_handle: u64,
}

/// Why a process was not found. `E` is the error of the system's lists.
#[derive(Clone, Debug)]
pub enum ProcessError<E> {
    /// No process with that name has a module of that name.
    ProcessNotFound,
    /// The processes could not be listed.
    ProcessSnapshotError(E),
    /// The modules of no process with that name could be searched with
    /// success, and those of the one tried last that failed could not be listed.
    ModuleSnapshotError(E),
}

impl<E> ProcessError<E> {
    /// What the error says.
    pub open spec fn text(self) -> Seq<char> {
        match self {
            ProcessError::ProcessNotFound => "Process was not found with that name"@,
            ProcessError::ProcessSnapshotError(_) => "Could not snapshot process"@,
            ProcessError::ModuleSnapshotError(_) => "Could not snapshot process memory"@,
        }
    }

    /// Says what went wrong.
    pub fn message(&self) -> (message: &'static str)
        ensures
            message@ == self.text(),
    {
        match self {
            ProcessError::ProcessNotFound => "Process was not found with that name",
            ProcessError::ProcessSnapshotError(_) => "Could not snapshot process",
            ProcessError::ModuleSnapshotError(_) => "Could not snapshot process memory",
        }
    }
}

/// Whether the system's units spell a name.
pub open spec fn spells(units: Seq<u16>, name: Seq<char>) -> bool {
    text::same_ignoring_ascii_case(text::without_trailing_nuls(text::utf16_lossy(units)), name)
}

/// The numbers of the processes with a name, in the system's order.
pub open spec fn pids_named(entries: Seq<ProcessEntry>, name: Seq<char>) -> Seq<u32>
    decreases entries.len(),
{
    if entries.len() == 0 {
        Seq::empty()
    } else {
        let earlier = pids_named(entries.drop_last(), name);
        if spells(entries.last().exe_file@, name) {
            earlier.push(entries.last().process_id)
        } else {
            earlier
        }
    }
}

/// The numbers with the preferred one moved to the front.
pub open spec fn preferred_first(pids: Seq<u32>, preferred: u32) -> Seq<u32> {
    pids.filter(being(preferred)) + pids.filter(not_being(preferred))
}

/// The test for one number.
pub open spec fn being(number: u32) -> spec_fn(u32) -> bool {
    |pid: u32| pid == number
}

/// The test for all numbers but one.
pub open spec fn not_being(number: u32) -> spec_fn(u32) -> bool {
    |pid: u32| pid != number
}

/// The first module with a name.
pub open spec fn module_named(modules: Seq<ModuleEntry>, name: Seq<char>) -> Option<Process>
    decreases modules.len(),
{
    if modules.len() == 0 {
        None
    } else if spells(modules[0].module@, name) {
        Some(
            Process {
                base_address: modules[0].base_address,
                module_handle: modules[0].module_handle,
            },
        )
    } else {
        module_named(modules.drop_first(), name)
    }
}

/// The outcomes of trying processes in turn, where `last` is the last error so far.
pub open spec fn attempts<E, F: Fn(u32) -> Result<Vec<ModuleEntry>, E>>(
    name: Seq<char>,
    pids: Seq<u32>,
    modules_of: F,
    last: Option<E>,
) -> Set<Result<Process, ProcessError<E>>>
    decreases pids.len(),
{
    if pids.len() == 0 {
        outcome::exactly(
            Err(
                match last {
                    Some(error) => ProcessError::ModuleSnapshotError(error),
                    None => ProcessError::ProcessNotFound,
                },
            ),
        )
    } else {
        Set::new(
            |r: Result<Process, ProcessError<E>>|
                exists|reply: Result<Vec<ModuleEntry>, E>| #[trigger]
                    call_ensures(modules_of, (pids[0],), reply) && match reply {
                        Ok(modules) => match module_named(modules@, name) {
                            Some(process) => r == Ok::<Process, ProcessError<E>>(process),
                            None => attempts(name, pids.drop_first(), modules_of, last).contains(r),
                        },
                        Err(error) => attempts(
                            name,
                            pids.drop_first(),
                            modules_of,
                            Some(error),
                        ).contains(r),
                    },
        )
    }
}

/// The outcomes of finding a process by its name.
pub open spec fn with_name_outcomes<E, F: Fn(u32) -> Result<Vec<ModuleEntry>, E>>(
    name: Seq<char>,
    current_pid: u32,
    processes: Result<Vec<ProcessEntry>, E>,
    modules_of: F,
) -> Set<Result<Process, ProcessError<E>>> {
    match processes {
        Err(error) => outcome::exactly(Err(ProcessError::ProcessSnapshotError(error))),
        Ok(entries) => attempts(
            name,
            preferred_first(pids_named(entries@, name), current_pid),
            modules_of,
            None,
        ),
    }
}

/// Lists the numbers of the processes with a name.
pub fn candidate_pids(entries: &Vec<ProcessEntry>, name: &str) -> (pids: Vec<u32>)
    ensures
        pids@ == pids_named(entries@, name@),
{
    let mut pids: Vec<u32> = Vec::new();
    let mut i: usize = 0;
    assert(entries@.take(0) =~= Seq::empty());
    while i < entries.len()
        invariant
            i <= entries@.len(),
            pids@ == pids_named(entries@.take(i as int), name@),
        decreases entries@.len() - i,
    {
        assert(entries@.take(i + 1).drop_last() =~= entries@.take(i as int));
        if units_name(entries[i].exe_file.as_slice(), name) {
            pids.push(entries[i].process_id);
        }
        i = i + 1;
    }
    assert(entries@.take(i as int) =~= entries@);
    pids
}

/// Moves the preferred number to the front and keeps the order of the others.
pub fn order_candidates(pids: &Vec<u32>, preferred: u32) -> (ordered: Vec<u32>)
    ensures
        ordered@ == preferred_first(pids@, preferred),
{
    let mut ordered: Vec<u32> = Vec::new();
    let mut others: Vec<u32> = Vec::new();
    let mut i: usize = 0;
    proof {
        reveal(Seq::filter);
        assert(pids@.take(0) =~= Seq::empty());
    }
    while i < pids.len()
        invariant
            i <= pids@.len(),
            ordered@ == pids@.take(i as int).filter(being(preferred)),
            others@ == pids@.take(i as int).filter(not_being(preferred)),
        decreases pids@.len() - i,
    {
        proof {
            reveal(Seq::filter);
            assert(pids@.take(i + 1).drop_last() =~= pids@.take(i as int));
        }
        if pids[i] == preferred {
            ordered.push(pids[i]);
        } else {
            others.push(pids[i]);
        }
        i = i + 1;
    }
    assert(pids@.take(i as int) =~= pids@);
    ordered.append(&mut others);
    ordered
}

/// Finds the first module with a name.
pub fn find_module(modules: &Vec<ModuleEntry>, name: &str) -> (process: Option<Process>)
    ensures
        process == module_named(modules@, name@),
{
    let mut i: usize = 0;
    assert(modules@.skip(0) =~= modules@);
    while i < modules.len()
        invariant
            i <= modules@.len(),
            module_named(modules@.skip(i as int), name@) == module_named(modules@, name@),
        decreases modules@.len() - i,
    {
        assert(modules@.skip(i as int).drop_first() =~= modules@.skip(i + 1));
        if units_name(modules[i].module.as_slice(), name) {
            return Some(
                Process {
                    base_address: modules[i].base_address,
                    module_handle: modules[i].module_handle,
                },
            );
        }
        i = i + 1;
    }
    assert(modules@.skip(i as int) =~= Seq::empty());
    None
}

/// Splitting a list by a number and putting the parts together loses nothing.
proof fn lemma_preferred_first(pids: Seq<u32>, preferred: u32)
    ensures
        preferred_first(pids, preferred).to_multiset() == pids.to_multiset(),
        forall|i: int|
            0 <= i < pids.filter(being(preferred)).len() ==> #[trigger] pids.filter(
                being(preferred),
            )[i] == preferred,
    decreases pids.len(),
{
    broadcast use vstd::seq_lib::group_to_multiset_ensures;

    reveal(Seq::filter);
    let all = preferred_first(pids, preferred);
    if pids.len() == 0 {
        assert(all =~= pids);
    } else {
        let rest = pids.drop_last();
        lemma_preferred_first(rest, preferred);
        let same = rest.filter(being(preferred));
        let others = rest.filter(not_being(preferred));
        assert(pids =~= rest.push(pids.last()));
        vstd::seq_lib::lemma_multiset_commutative(same, others);
        if pids.last() == preferred {
            assert(pids.filter(being(preferred)) =~= same.push(preferred));
            assert(pids.filter(not_being(preferred)) =~= others);
            vstd::seq_lib::lemma_multiset_commutative(same.push(preferred), others);
        } else {
            assert(pids.filter(being(preferred)) =~= same);
            assert(pids.filter(not_being(preferred)) =~= others.push(pids.last()));
            vstd::seq_lib::lemma_multiset_commutative(same, others.push(pids.last()));
        }
        assert(all.to_multiset() =~= pids.to_multiset());
    }
}

/// Ordering the candidates loses none of them and adds none, and puts the
/// preferred one first if it is among them.
pub proof fn law_the_preferred_process_comes_first(pids: Seq<u32>, preferred: u32)
    ensures
        preferred_first(pids, preferred).to_multiset() == pids.to_multiset(),
        pids.contains(preferred) ==> preferred_first(pids, preferred).len() > 0 && preferred_first(
            pids,
            preferred,
        )[0] == preferred,
{
    lemma_preferred_first(pids, preferred);
    if pids.contains(preferred) {
        pids.filter_lemma(being(preferred));
        let i = pids.index_of(preferred);
        assert(being(preferred)(pids[i]));
        assert(pids.filter(being(preferred)).contains(pids[i]));
    }
}

/// Code that runs inside one of several processes with a name finds that very
/// process, provided that its modules can be listed and hold one of that name.
pub proof fn law_a_process_finds_itself<E, F: Fn(u32) -> Result<Vec<ModuleEntry>, E>>(
    name: Seq<char>,
    current_pid: u32,
    entries: Vec<ProcessEntry>,
    modules_of: F,
    result: Result<Process, ProcessError<E>>,
)
    requires
        pids_named(entries@, name).contains(current_pid),
        forall|reply: Result<Vec<ModuleEntry>, E>| #[trigger]
            call_ensures(modules_of, (current_pid,), reply) ==> (reply matches Ok(modules)
                && module_named(modules@, name) is Some),
        with_name_outcomes(name, current_pid, Ok::<Vec<ProcessEntry>, E>(entries), modules_of).contains(
            result,
        ),
    ensures
        result is Ok,
        exists|modules: Vec<ModuleEntry>| #[trigger]
            call_ensures(modules_of, (current_pid,), Ok(modules)) && module_named(modules@, name)
                == Some(result->Ok_0),
{
    let pids = pids_named(entries@, name);
    law_the_preferred_process_comes_first(pids, current_pid);
    let ordered = preferred_first(pids, current_pid);
    assert(ordered[0] == current_pid);
    let reply = choose|reply: Result<Vec<ModuleEntry>, E>| #[trigger]
        call_ensures(modules_of, (ordered[0],), reply) && (match reply {
            Ok(modules) => match module_named(modules@, name) {
                Some(process) => result == Ok::<Process, ProcessError<E>>(process),
                None => attempts(name, ordered.drop_first(), modules_of, None).contains(result),
            },
            Err(error) => attempts(
                name,
                ordered.drop_first(),
                modules_of,
                Some(error),
            ).contains(result),
        });
    assert(call_ensures(modules_of, (current_pid,), reply));
}

/// A search takes the last capture, the first match or the first capture: what
/// comes before the last match or after the first one makes no difference. An
/// address is as far above the module's base as the match says.
pub proof fn law_a_choice_looks_at_one_match(
    base: u64,
    one: (u32, u32),
    others: Seq<(u32, u32)>,
)
    requires
        base + u32::MAX <= u64::MAX,
    ensures
        last_capture(base, others.push(one)) == Some((base + one.1) as u64),
        first_match(base, seq![one] + others) == Some((base + one.0) as u64),
        first_capture(base, seq![one] + others) == Some((base + one.1) as u64),
        last_capture(base, Seq::empty()) is None,
        first_match(base, Seq::empty()) is None,
        first_capture(base, Seq::empty()) is None,
{
}

/// A search fails because the signature does not parse, because the image holds
/// no code where it says, or because nothing matches, in this order; and for no
/// other reason.
pub proof fn law_a_search_fails_for_three_reasons(
    image: Seq<u8>,
    signature: Seq<char>,
    choice: spec_fn(Seq<(u32, u32)>) -> Option<u64>,
)
    ensures
        match searched(image, signature, choice) {
            Err(SearchError::InvalidPattern(error)) => parsed_pattern(signature) == Err::<
                Seq<Atom>,
                ParsePatError,
            >(error),
            Err(SearchError::BadImage) => parsed_pattern(signature) is Ok && !code_in_image(image),
            Err(SearchError::NoMatch) => parsed_pattern(signature) is Ok && code_in_image(image)
                && choice(code_matches(image, parsed_pattern(signature)->Ok_0)) is None,
            Ok(address) => parsed_pattern(signature) is Ok && code_in_image(image) && choice(
                code_matches(image, parsed_pattern(signature)->Ok_0),
            ) == Some(address),
        },
{
}

/// An image tells at 0x3C where its headers are, and those tell at 0x2C where the
/// code begins and at 0x1C how long it is. It has to begin in the image, and both
/// have to be within reach of 32 bits.
pub proof fn law_the_headers_tell_where_the_code_is(image: Seq<u8>, headers: int)
    requires
        0x40 <= image.len() <= u32::MAX,
        headers == memory::spelled(image, 0x3C),
    ensures
        code_in_image(image) <==> headers + 0x30 <= image.len() && memory::spelled(image, headers + 0x2C)
            <= image.len() && memory::spelled(image, headers + 0x2C) + memory::spelled(image, headers + 0x1C)
            <= u32::MAX,
{
    memory::lemma_little_endian_4(image.subrange(0x3C, 0x40));
    if headers + 0x30 <= image.len() {
        memory::lemma_little_endian_4(image.subrange(headers + 0x2C, headers + 0x30));
        memory::lemma_little_endian_4(image.subrange(headers + 0x1C, headers + 0x20));
    }
}

/// The processes with a name are those whose executable has it, in the system's
/// order: those of one part of the list, and then those of the other.
pub proof fn law_processes_are_listed_in_order(
    one: Seq<ProcessEntry>,
    other: Seq<ProcessEntry>,
    entry: ProcessEntry,
    name: Seq<char>,
)
    ensures
        pids_named(one + other, name) == pids_named(one, name) + pids_named(other, name),
        spells(entry.exe_file@, name) ==> pids_named(seq![entry], name) == seq![entry.process_id],
        !spells(entry.exe_file@, name) ==> pids_named(seq![entry], name).len() == 0,
    decreases other.len(),
{
    reveal_with_fuel(pids_named, 2);
    assert(seq![entry].drop_last() =~= Seq::empty());
    assert(pids_named(seq![entry].drop_last(), name) =~= Seq::empty());
    if other.len() == 0 {
        assert(one + other =~= one);
        assert(pids_named(one, name) + pids_named(other, name) =~= pids_named(one, name));
    } else {
        let fewer = other.drop_last();
        law_processes_are_listed_in_order(one, fewer, entry, name);
        assert((one + other).drop_last() =~= one + fewer);
        assert((one + other).last() == other.last());
        assert(pids_named(one + other, name) =~= pids_named(one, name) + pids_named(other, name));
    }
}

/// Units spell a name if their text is the name, up to NULs at its end and the
/// case of ASCII letters.
pub proof fn law_names_are_spelled_with_nuls(units: Seq<u16>, name: Seq<char>)
    requires
        spells(units, name),
    ensures
        ({
            let text = text::utf16_lossy(units);
            &&& text.len() >= name.len()
            &&& forall|i: int|
                0 <= i < name.len() ==> #[trigger] text[i] == name[i] || text::are_one_letter(
                    text[i],
                    name[i],
                ) || text::are_one_letter(name[i], text[i])
            &&& forall|i: int| name.len() <= i < text.len() ==> #[trigger] text[i] == '\0'
        }),
{
    let text = text::utf16_lossy(units);
    let spelled = text::without_trailing_nuls(text);
    text::law_only_trailing_nuls_are_dropped(text);
    text::law_only_the_case_of_letters_is_ignored(spelled, name);
    assert forall|i: int| 0 <= i < name.len() implies #[trigger] text[i] == name[i]
        || text::are_one_letter(text[i], name[i]) || text::are_one_letter(name[i], text[i]) by {
        assert(spelled[i] == text.take(spelled.len() as int)[i]);
        assert(spelled[i] == name[i] || text::are_one_letter(spelled[i], name[i])
            || text::are_one_letter(name[i], spelled[i]));
    }
}

/// The order of the candidates is kept but for the preferred one.
pub proof fn law_the_other_processes_keep_their_order(
    pids: Seq<u32>,
    preferred: u32,
    last: u32,
)
    requires
        last != preferred,
    ensures
        preferred_first(pids.push(last), preferred) == preferred_first(pids, preferred).push(last),
        preferred_first(seq![preferred] + pids, preferred) == seq![preferred] + preferred_first(
            pids,
            preferred,
        ),
        !pids.contains(preferred) ==> preferred_first(pids, preferred) == pids,
{
    lemma_pushed(pids, preferred, last);
    lemma_led(pids, preferred);
    assert(preferred_first(seq![preferred] + pids, preferred) =~= seq![preferred]
        + preferred_first(pids, preferred));
    if !pids.contains(preferred) {
        assert forall|i: int| 0 <= i < pids.len() implies #[trigger] pids[i] != preferred by {
            assert(pids.contains(pids[i]));
        }
        lemma_unpreferred(pids, preferred);
    }
}

/// Nothing stays nothing.
proof fn lemma_nobody_to_order(pids: Seq<u32>, preferred: u32)
    requires
        pids.len() == 0,
    ensures
        preferred_first(pids, preferred) == pids,
{
    reveal(Seq::filter);
    assert(pids.filter(being(preferred)) == pids);
    assert(pids.filter(not_being(preferred)) == pids);
    assert(pids + pids =~= pids);
}

/// Where none is preferred, all stay where they are.
proof fn lemma_unpreferred(pids: Seq<u32>, preferred: u32)
    requires
        forall|i: int| 0 <= i < pids.len() ==> #[trigger] pids[i] != preferred,
    ensures
        preferred_first(pids, preferred) == pids,
    decreases pids.len(),
{
    if pids.len() == 0 {
        lemma_nobody_to_order(pids, preferred);
    } else {
        let fewer = pids.drop_last();
        let last = pids.last();
        assert(fewer.push(last) =~= pids);
        lemma_unpreferred(fewer, preferred);
        lemma_pushed(fewer, preferred, last);
    }
}

/// One more candidate that is not preferred comes last.
proof fn lemma_pushed(pids: Seq<u32>, preferred: u32, last: u32)
    requires
        last != preferred,
    ensures
        preferred_first(pids.push(last), preferred) == preferred_first(pids, preferred).push(last),
{
    reveal(Seq::filter);
    assert(pids.push(last).drop_last() =~= pids);
    assert(preferred_first(pids.push(last), preferred) =~= preferred_first(pids, preferred).push(
        last,
    ));
}

/// A preferred candidate in front is filtered in front.
proof fn lemma_led(pids: Seq<u32>, preferred: u32)
    ensures
        (seq![preferred] + pids).filter(being(preferred)) == seq![preferred] + pids.filter(
            being(preferred),
        ),
        (seq![preferred] + pids).filter(not_being(preferred)) == pids.filter(not_being(preferred)),
    decreases pids.len(),
{
    reveal(Seq::filter);
    let led = seq![preferred] + pids;
    if pids.len() == 0 {
        assert(led =~= seq![preferred]);
        assert(led.drop_last() =~= Seq::empty());
        assert(led.drop_last().filter(being(preferred)) =~= Seq::empty());
        assert(led.drop_last().filter(not_being(preferred)) =~= Seq::empty());
        assert(led.filter(being(preferred)) =~= seq![preferred] + pids.filter(being(preferred)));
        assert(led.filter(not_being(preferred)) =~= pids.filter(not_being(preferred)));
    } else {
        lemma_led(pids.drop_last(), preferred);
        assert(led.drop_last() =~= seq![preferred] + pids.drop_last());
        assert(led.filter(being(preferred)) =~= seq![preferred] + pids.filter(being(preferred)));
        assert(led.filter(not_being(preferred)) =~= pids.filter(not_being(preferred)));
    }
}

/// A module is found by its name: it is the first in the list that has it, with
/// its own base and handle. None is found where none has it.
pub proof fn law_the_first_module_with_the_name_is_found(
    modules: Seq<ModuleEntry>,
    name: Seq<char>,
)
    ensures
        match module_named(modules, name) {
            Some(process) => exists|i: int|
                0 <= i < modules.len() && spells((#[trigger] modules[i]).module@, name)
                    && process.base_address == modules[i].base_address && process.module_handle
                    == modules[i].module_handle && forall|j: int|
                    0 <= j < i ==> !spells((#[trigger] modules[j]).module@, name),
            None => forall|i: int|
                0 <= i < modules.len() ==> !spells((#[trigger] modules[i]).module@, name),
        },
    decreases modules.len(),
{
    if modules.len() > 0 {
        if spells(modules[0].module@, name) {
            assert(modules[0] == modules[0]);
        } else {
            let rest = modules.drop_first();
            law_the_first_module_with_the_name_is_found(rest, name);
            match module_named(rest, name) {
                Some(process) => {
                    let i = choose|i: int|
                        0 <= i < rest.len() && spells((#[trigger] rest[i]).module@, name)
                            && process.base_address == rest[i].base_address
                            && process.module_handle == rest[i].module_handle && forall|j: int|
                            0 <= j < i ==> !spells((#[trigger] rest[j]).module@, name);
                    assert(modules[i + 1] == rest[i]);
                    assert forall|j: int| 0 <= j < i + 1 implies !spells(
                        (#[trigger] modules[j]).module@,
                        name,
                    ) by {
                        if j > 0 {
                            assert(rest[j - 1] == modules[j]);
                        }
                    }
                },
                None => {
                    assert forall|i: int| 0 <= i < modules.len() implies !spells(
                        (#[trigger] modules[i]).module@,
                        name,
                    ) by {
                        if i > 0 {
                            assert(rest[i - 1] == modules[i]);
                        }
                    }
                },
            }
        }
    }
}

/// Whether a process has been asked in vain: its modules could not be listed, or
/// none of them has the name.
pub open spec fn is_in_vain<E>(
    reply: Result<Vec<ModuleEntry>, E>,
    name: Seq<char>,
) -> bool {
    reply matches Ok(modules) ==> module_named(modules@, name) is None
}

/// Processes are asked in turn until one has a module of the name. Where all are
/// asked in vain, the error is that of the last one whose modules could not be
/// listed, and that there is no such process if all could.
pub proof fn law_processes_are_asked_in_turn<E, F: Fn(u32) -> Result<Vec<ModuleEntry>, E>>(
    name: Seq<char>,
    pids: Seq<u32>,
    modules_of: F,
    replies: spec_fn(u32) -> Result<Vec<ModuleEntry>, E>,
    found: int,
    result: Result<Process, ProcessError<E>>,
)
    requires
        forall|pid: u32, reply: Result<Vec<ModuleEntry>, E>| #[trigger]
            call_ensures(modules_of, (pid,), reply) ==> reply == replies(pid),
        0 <= found <= pids.len(),
        forall|i: int| 0 <= i < found ==> is_in_vain(replies(#[trigger] pids[i]), name),
        found < pids.len() ==> !is_in_vain(replies(pids[found]), name),
        attempts(name, pids, modules_of, None).contains(result),
    ensures
        found < pids.len() ==> result == Ok::<Process, ProcessError<E>>(
            module_named(replies(pids[found])->Ok_0@, name)->Some_0,
        ),
        found == pids.len() ==> (result matches Err(error) && match error {
            ProcessError::ProcessSnapshotError(_) => false,
            ProcessError::ModuleSnapshotError(e) => exists|i: int|
                0 <= i < pids.len() && replies(#[trigger] pids[i]) == Err::<Vec<ModuleEntry>, E>(e)
                    && forall|j: int| i < j < pids.len() ==> replies(#[trigger] pids[j]) is Ok,
            ProcessError::ProcessNotFound => forall|i: int|
                0 <= i < pids.len() ==> replies(#[trigger] pids[i]) is Ok,
        }),
{
    lemma_attempts(name, pids, modules_of, replies, found, None, result);
}

/// What comes of asking processes in turn after an error, if there was one.
proof fn lemma_attempts<E, F: Fn(u32) -> Result<Vec<ModuleEntry>, E>>(
    name: Seq<char>,
    pids: Seq<u32>,
    modules_of: F,
    replies: spec_fn(u32) -> Result<Vec<ModuleEntry>, E>,
    found: int,
    last: Option<E>,
    result: Result<Process, ProcessError<E>>,
)
    requires
        forall|pid: u32, reply: Result<Vec<ModuleEntry>, E>| #[trigger]
            call_ensures(modules_of, (pid,), reply) ==> reply == replies(pid),
        0 <= found <= pids.len(),
        forall|i: int| 0 <= i < found ==> is_in_vain(replies(#[trigger] pids[i]), name),
        found < pids.len() ==> !is_in_vain(replies(pids[found]), name),
        attempts(name, pids, modules_of, last).contains(result),
    ensures
        found < pids.len() ==> result == Ok::<Process, ProcessError<E>>(
            module_named(replies(pids[found])->Ok_0@, name)->Some_0,
        ),
        found == pids.len() ==> (result matches Err(error) && match error {
            ProcessError::ProcessSnapshotError(_) => false,
            ProcessError::ModuleSnapshotError(e) => (last == Some(e) && forall|i: int|
                0 <= i < pids.len() ==> replies(#[trigger] pids[i]) is Ok) || exists|i: int|
                0 <= i < pids.len() && replies(#[trigger] pids[i]) == Err::<Vec<ModuleEntry>, E>(e)
                    && forall|j: int| i < j < pids.len() ==> replies(#[trigger] pids[j]) is Ok,
            ProcessError::ProcessNotFound => last is None && forall|i: int|
                0 <= i < pids.len() ==> replies(#[trigger] pids[i]) is Ok,
        }),
    decreases pids.len(),
{
    if pids.len() > 0 {
        let rest = pids.drop_first();
        let reply = choose|reply: Result<Vec<ModuleEntry>, E>| #[trigger]
            call_ensures(modules_of, (pids[0],), reply) && (match reply {
                Ok(modules) => match module_named(modules@, name) {
                    Some(process) => result == Ok::<Process, ProcessError<E>>(process),
                    None => attempts(name, rest, modules_of, last).contains(result),
                },
                Err(error) => attempts(name, rest, modules_of, Some(error)).contains(result),
            });
        assert(reply == replies(pids[0]));
        if found > 0 {
            let next = match reply {
                Ok(_) => last,
                Err(error) => Some(error),
            };
            assert forall|i: int| 0 <= i < found - 1 implies is_in_vain(
                replies(#[trigger] rest[i]),
                name,
            ) by {
                assert(rest[i] == pids[i + 1]);
            }
            assert(is_in_vain(replies(pids[0]), name));
            lemma_attempts(name, rest, modules_of, replies, found - 1, next, result);
            if found == pids.len() {
                let error = result->Err_0;
                match error {
                    ProcessError::ModuleSnapshotError(e) => {
                        if exists|i: int|
                            0 <= i < rest.len() && replies(#[trigger] rest[i]) == Err::<
                                Vec<ModuleEntry>,
                                E,
                            >(e) && forall|j: int|
                                i < j < rest.len() ==> replies(#[trigger] rest[j]) is Ok {
                            let i = choose|i: int|
                                0 <= i < rest.len() && replies(#[trigger] rest[i]) == Err::<
                                    Vec<ModuleEntry>,
                                    E,
                                >(e) && forall|j: int|
                                    i < j < rest.len() ==> replies(#[trigger] rest[j]) is Ok;
                            assert(pids[i + 1] == rest[i]);
                            assert forall|j: int| i + 1 < j < pids.len() implies replies(
                                #[trigger] pids[j],
                            ) is Ok by {
                                assert(rest[j - 1] == pids[j]);
                            }
                        } else {
                            assert forall|j: int| 0 < j < pids.len() implies replies(
                                #[trigger] pids[j],
                            ) is Ok by {
                                assert(rest[j - 1] == pids[j]);
                            }
                        }
                    },
                    _ => {
                        assert forall|j: int| 0 < j < pids.len() implies replies(
                            #[trigger] pids[j],
                        ) is Ok by {
                            assert(rest[j - 1] == pids[j]);
                        }
                    },
                }
            }
        }
    }
}

/// A list of processes that cannot be had is reported as such, and a name that no
/// process has is not found.
pub proof fn law_an_unknown_name_is_not_found<E, F: Fn(u32) -> Result<Vec<ModuleEntry>, E>>(
    name: Seq<char>,
    current_pid: u32,
    processes: Result<Vec<ProcessEntry>, E>,
    modules_of: F,
    result: Result<Process, ProcessError<E>>,
)
    requires
        with_name_outcomes(name, current_pid, processes, modules_of).contains(result),
    ensures
        processes matches Err(error) ==> result == Err::<Process, ProcessError<E>>(
            ProcessError::ProcessSnapshotError(error),
        ),
        processes matches Ok(entries) && (forall|i: int|
            0 <= i < entries@.len() ==> !spells((#[trigger] entries@[i]).exe_file@, name))
            ==> result == Err::<Process, ProcessError<E>>(ProcessError::ProcessNotFound),
{
    if let Ok(entries) = processes {
        if forall|i: int|
            0 <= i < entries@.len() ==> !spells((#[trigger] entries@[i]).exe_file@, name) {
            lemma_nobody_named(entries@, name);
            reveal(Seq::filter);
            assert(preferred_first(pids_named(entries@, name), current_pid) =~= Seq::empty());
        }
    }
}

/// Where no process has a name, none is listed.
proof fn lemma_nobody_named(entries: Seq<ProcessEntry>, name: Seq<char>)
    requires
        forall|i: int| 0 <= i < entries.len() ==> !spells((#[trigger] entries[i]).exe_file@, name),
    ensures
        pids_named(entries, name).len() == 0,
    decreases entries.len(),
{
    if entries.len() > 0 {
        let fewer = entries.drop_last();
        assert forall|i: int| 0 <= i < fewer.len() implies !spells(
            (#[trigger] fewer[i]).exe_file@,
            name,
        ) by {
            assert(fewer[i] == entries[i]);
        }
        lemma_nobody_named(fewer, name);
        assert(!spells(entries[entries.len() - 1].exe_file@, name));
    }
}

/// A search for an address takes what the last match captured, and a search for a
/// match where the first one begins.
pub proof fn law_a_search_tells_one_address(
    process: &Process,
    view: &PeView<'_>,
    signature: &str,
    atoms: Seq<Atom>,
    captured: Result<u64, SearchError>,
    begun: Result<u64, SearchError>,
)
    requires
        is_scannable(signature@),
        parsed_pattern(signature@) == Ok::<Seq<Atom>, ParsePatError>(atoms),
        code_in_image(image_of(*view)),
        call_ensures(Process::search_address, (process, view, signature), captured),
        call_ensures(Process::search_match_address, (process, view, signature), begun),
    ensures
        ({
            let matches = code_matches(image_of(*view), atoms);
            if matches.len() == 0 {
                captured == Err::<u64, SearchError>(SearchError::NoMatch) && begun == Err::<
                    u64,
                    SearchError,
                >(SearchError::NoMatch)
            } else {
                &&& captured == Ok::<u64, SearchError>(
                    process.base_address.wrapping_add(matches.last().1 as u64),
                )
                &&& begun == Ok::<u64, SearchError>(
                    process.base_address.wrapping_add(matches[0].0 as u64),
                )
            }
        }),
{
}

/// The value that a signature leads to is read where its first match says, as
/// many bytes as are asked for.
pub proof fn law_a_value_is_read_where_the_first_match_says<M: Memory>(
    process: &Process,
    memory: &M,
    view: &PeView<'_>,
    signature: &str,
    size: usize,
    atoms: Seq<Atom>,
    bytes: Option<Seq<u8>>,
    value: Result<Option<Vec<u8>>, SearchError>,
)
    requires
        is_scannable(signature@),
        parsed_pattern(signature@) == Ok::<Seq<Atom>, ParsePatError>(atoms),
        code_in_image(image_of(*view)),
        code_matches(image_of(*view), atoms).len() > 0,
        outcome::is_only(
            memory::bytes_at(
                memory,
                process.base_address.wrapping_add(
                    code_matches(image_of(*view), atoms)[0].1 as u64,
                ),
                size,
            ),
            bytes,
        ),
        call_ensures(
            Process::search_slice::<M>,
            (process, memory, view, signature, size),
            value,
        ),
    ensures
        bytes is None ==> (value matches Ok(read) && read is None),
        bytes matches Some(b) ==> (value matches Ok(read) && (read matches Some(v) && v@ == b)),
{
}

/// A text of one character, repeated.
pub open spec fn repeated(c: char, count: nat) -> Seq<char> {
    Seq::new(count, |i: int| c)
}

/// Braces and hyphens are limited to 255 each.
pub proof fn law_braces_and_ranges_are_limited(count: nat)
    ensures
        is_scannable(repeated('{', count)) <==> count < 256,
        is_scannable(repeated('-', count)) <==> count < 256,
{
    lemma_repeated('{', '{', count);
    lemma_repeated('-', '-', count);
    lemma_repeated('{', '-', count);
    lemma_repeated('-', '{', count);
}

/// How often a character occurs in a text of one character.
proof fn lemma_repeated(c: char, other: char, count: nat)
    requires
        c != '"',
        other != '"',
    ensures
        !in_quotation(repeated(c, count)),
        occurrences(repeated(c, count), other) == if c == other {
            count
        } else {
            0
        },
    decreases count,
{
    if count > 0 {
        lemma_repeated(c, other, (count - 1) as nat);
        assert(repeated(c, count).drop_last() =~= repeated(c, (count - 1) as nat));
        assert(repeated(c, count).last() == c);
    }
}

/// An alignment is one digit or letter, up to that of the 31st power of two.
pub proof fn law_alignments_are_limited(c: char)
    requires
        c != '{',
        c != '-',
        c != '"',
        c != '@',
    ensures
        is_scannable(seq!['@', c]) <==> !('w' <= c <= 'z' || 'W' <= c <= 'Z'),
{
    let text = seq!['@', c];
    reveal_with_fuel(occurrences, 3);
    reveal_with_fuel(in_quotation, 3);
    assert(text.drop_last() =~= seq!['@']);
    assert(text.drop_last().drop_last() =~= Seq::empty());
    assert(text.take(0) =~= Seq::empty());
    if 'w' <= c <= 'z' || 'W' <= c <= 'Z' {
        assert(misaligned_at(text, 0));
    }
}

/// What stands in a quotation is not limited.
pub proof fn law_quotations_are_not_limited(text: Seq<char>)
    requires
        !text.contains('"'),
    ensures
        is_scannable(seq!['"'] + text),
{
    let quoted = seq!['"'] + text;
    lemma_quoted(text, '{', text.len());
    lemma_quoted(text, '-', text.len());
    assert(quoted.take((text.len() + 1) as int) =~= quoted);
    assert forall|i: int| 0 <= i < quoted.len() implies !#[trigger] misaligned_at(
        quoted,
        i,
    ) by {
        if i > 0 {
            lemma_quoted(text, '{', (i - 1) as nat);
        }
    }
}

/// A text after an opening quotation mark is quoted, as long as none closes it.
proof fn lemma_quoted(text: Seq<char>, c: char, end: nat)
    requires
        !text.contains('"'),
        c != '"',
        end <= text.len(),
    ensures
        in_quotation((seq!['"'] + text).take((end + 1) as int)),
        occurrences((seq!['"'] + text).take((end + 1) as int), c) == 0,
    decreases end,
{
    let quoted = seq!['"'] + text;
    let now = quoted.take((end + 1) as int);
    if end == 0 {
        assert(now =~= seq!['"']);
        assert(now.drop_last() =~= Seq::empty());
        assert(!in_quotation(now.drop_last()));
        assert(occurrences(now.drop_last(), c) == 0);
    } else {
        lemma_quoted(text, c, (end - 1) as nat);
        assert(now.drop_last() =~= quoted.take(end as int));
        assert(now.last() == text[end - 1]);
        assert(text.contains(text[end - 1]));
    }
}

/// Units whose text is a name, whatever the case of its letters and however many
/// NULs follow, spell that name.
pub proof fn law_a_name_is_spelled_in_any_case(units: Seq<u16>, name: Seq<char>)
    requires
        name.len() > 0 ==> name.last() != '\0',
        text::utf16_lossy(units).len() >= name.len(),
        forall|i: int|
            0 <= i < name.len() ==> #[trigger] text::utf16_lossy(units)[i] == name[i]
                || text::are_one_letter(text::utf16_lossy(units)[i], name[i])
                || text::are_one_letter(name[i], text::utf16_lossy(units)[i]),
        forall|i: int|
            name.len() <= i < text::utf16_lossy(units).len()
                ==> #[trigger] text::utf16_lossy(units)[i] == '\0',
    ensures
        spells(units, name),
{
    let text = text::utf16_lossy(units);
    let spelled = text::without_trailing_nuls(text);
    text::law_only_trailing_nuls_are_dropped(text);
    if spelled.len() > name.len() {
        assert(spelled.last() == text[spelled.len() - 1]);
        assert(text[spelled.len() - 1] == '\0');
    }
    if spelled.len() < name.len() {
        assert(text[name.len() - 1] == '\0');
        assert(text[name.len() - 1] == name[name.len() - 1]);
    }
    assert forall|i: int| 0 <= i < spelled.len() implies #[trigger] spelled[i] == name[i]
        || text::are_one_letter(spelled[i], name[i]) || text::are_one_letter(
        name[i],
        spelled[i],
    ) by {
        assert(spelled[i] == text[i]);
        assert(text[i] == name[i] || text::are_one_letter(text[i], name[i])
            || text::are_one_letter(name[i], text[i]));
    }
    text::law_only_the_case_of_letters_is_ignored(spelled, name);
}

} // verus!
