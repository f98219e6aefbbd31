use gbfr_logs::hooks::damage::{OnProcessDamageHook, OnProcessDotHook};
use gbfr_logs::hooks::player::OnLoadPlayerIdentityHook;
use gbfr_logs::hooks::HookError;
use gbfr_logs::memory::Memory;
use gbfr_logs::process::{
    can_scan, candidate_pids, find_module, has_code_in_image, order_candidates, take_first_capture,
    take_first_match, take_last_capture, ModuleEntry, Process, ProcessEntry, ProcessError,
    SearchError,
};
use pelite::pe64::PeView;

const GAME: &str = "granblue_fantasy_relink.exe";

fn units(text: &str) -> Vec<u16> {
    let mut units: Vec<u16> = text.encode_utf16().collect();
    units.resize(260, 0);
    units
}

fn process(name: &str, process_id: u32) -> ProcessEntry {
    ProcessEntry { exe_file: units(name), process_id }
}

fn module(name: &str, base_address: u64) -> ModuleEntry {
    ModuleEntry { module: units(name), base_address, module_handle: base_address + 1 }
}

#[test]
fn names_are_compared_without_padding_and_case() {
    let entries = vec![
        process("explorer.exe", 1),
        process("Granblue_Fantasy_RELINK.exe", 2),
        process("granblue_fantasy_relink.exe.bak", 3),
        process(GAME, 4),
        process("", 5),
    ];
    assert_eq!(candidate_pids(&entries, GAME), [2, 4]);
    assert_eq!(candidate_pids(&entries, ""), [5]);
}

#[test]
fn names_are_utf16() {
    let broken = ProcessEntry { exe_file: vec![0x61, 0xD800, 0x62, 0xDC00], process_id: 1 };
    let paired = ProcessEntry { exe_file: vec![0xD834, 0xDD1E], process_id: 2 };
    let entries = vec![broken, paired];

    assert_eq!(candidate_pids(&entries, "a\u{FFFD}b\u{FFFD}"), [1]);
    assert_eq!(candidate_pids(&entries, "\u{1D11E}"), [2]);
}

#[test]
fn the_preferred_process_comes_first_and_the_others_keep_their_order() {
    assert_eq!(order_candidates(&vec![5, 9, 3, 9, 1], 9), [9, 9, 5, 3, 1]);
    assert_eq!(order_candidates(&vec![5, 3], 9), [5, 3]);
    assert!(order_candidates(&Vec::new(), 9).is_empty());
}

#[test]
fn the_first_module_with_the_name_is_taken() {
    let modules = vec![module("ntdll.dll", 10), module("GRANBLUE_FANTASY_RELINK.EXE", 20), module(GAME, 30)];
    let found = find_module(&modules, GAME).unwrap();
    assert_eq!(found.base_address, 20);
    assert_eq!(found.module_handle, 21);
    assert!(find_module(&modules, "other").is_none());
}

#[test]
fn a_process_finds_itself_among_others_with_its_name() {
    let list = || Ok(vec![process(GAME, 1), process(GAME, 2), process("other", 3)]);
    let found = Process::with_name::<&str, _>(GAME, 2, list(), |pid| {
        Ok(vec![module(GAME, 100 * u64::from(pid))])
    });
    assert_eq!(found.unwrap().base_address, 200);

    // Without modules of its own the next candidate is taken.
    let found = Process::with_name::<&str, _>(GAME, 2, list(), |pid| match pid {
        2 => Err("denied"),
        _ => Ok(vec![module(GAME, 100 * u64::from(pid))]),
    });
    assert_eq!(found.unwrap().base_address, 100);
}

#[test]
fn a_process_that_is_not_found_says_why() {
    fn listed<E>() -> Result<Vec<ProcessEntry>, E> {
        Ok(vec![process(GAME, 1), process(GAME, 2)])
    }

    let none = Process::with_name::<&str, _>("other", 2, listed(), |_| Ok(Vec::new()));
    assert!(matches!(none, Err(ProcessError::ProcessNotFound)));
    let empty = Process::with_name::<&str, _>(GAME, 2, listed(), |_| Ok(Vec::new()));
    assert!(matches!(empty, Err(ProcessError::ProcessNotFound)));
    let denied = Process::with_name::<u32, _>(GAME, 2, listed(), |pid| Err(pid));
    assert!(matches!(denied, Err(ProcessError::ModuleSnapshotError(1))));
    let unlisted = Process::with_name::<&str, _>(GAME, 2, Err("no list"), |_| Ok(Vec::new()));
    assert!(matches!(unlisted, Err(ProcessError::ProcessSnapshotError("no list"))));

    assert_eq!(
        ProcessError::<()>::ProcessNotFound.message(),
        "Process was not found with that name"
    );
    assert_eq!(ProcessError::ProcessSnapshotError(()).message(), "Could not snapshot process");
    assert_eq!(
        ProcessError::ModuleSnapshotError(()).message(),
        "Could not snapshot process memory"
    );
}

#[test]
fn matches_are_turned_into_addresses() {
    let matches = [(1, 10), (2, 20), (3, 30)];
    assert_eq!(take_last_capture(1000, &matches), Some(1030));
    assert_eq!(take_first_match(1000, &matches), Some(1001));
    assert_eq!(take_first_capture(1000, &matches), Some(1010));
    assert_eq!(take_last_capture(1000, &[]), None);
    assert_eq!(take_first_match(1000, &[]), None);
    assert_eq!(take_first_capture(1000, &[]), None);
}

const CODE: usize = 0x1000;

/// The image of a 64-bit module whose code starts at `CODE`.
fn image_of(code: &[u8]) -> Vec<u8> {
    let mut bytes = vec![0u8; 0x3000];
    let mut put = |offset: usize, value: &[u8]| {
        bytes[offset..offset + value.len()].copy_from_slice(value);
    };
    put(0, b"MZ");
    put(0x3C, &0x80u32.to_le_bytes());
    put(0x80, b"PE\0\0");
    // No sections, an optional header of the full size.
    put(0x80 + 4 + 16, &0xF0u16.to_le_bytes());
    put(0x98, &0x20Bu16.to_le_bytes());
    put(0x98 + 4, &0x1000u32.to_le_bytes());
    put(0x98 + 20, &(CODE as u32).to_le_bytes());
    put(0x98 + 56, &0x3000u32.to_le_bytes());
    put(0x98 + 60, &0x400u32.to_le_bytes());
    put(0x98 + 108, &16u32.to_le_bytes());
    put(CODE, code);
    bytes
}

/// A view of an image with valid headers.
fn view(image: &[u8]) -> PeView<'_> {
    PeView::from_bytes(image).expect("the headers are valid")
}

const LOADED: Process = Process { base_address: 0x1_4000_0000, module_handle: 7 };

/// Two calls that the damage signature matches.
fn calls() -> Vec<u8> {
    let mut code = vec![0x90u8; 0x100];
    let call = |target: i32, at: i32| -> Vec<u8> {
        let mut bytes = vec![0xE8];
        bytes.extend((target - (at + 5)).to_le_bytes());
        bytes.extend([0x66, 0x83, 0xBC, 0x24, 1, 2, 3, 4, 5]);
        bytes
    };
    code[0x10..0x1E].copy_from_slice(&call(0x80, 0x10));
    code[0x40..0x4E].copy_from_slice(&call(0xA0, 0x40));
    code
}

#[test]
fn the_last_call_of_the_damage_function_is_followed() {
    let image = image_of(&calls());
    let hook = OnProcessDamageHook::new(());
    let target = LOADED.base_address + CODE as u64 + 0xA0;

    assert_eq!(hook.setup(&LOADED, &view(&image)), Ok(target));
    assert_eq!(
        LOADED.search_address(&view(&image), "e8 $ { ' } 66 83 bc 24").ok(),
        Some(target)
    );
    assert_eq!(
        LOADED.search_match_address(&view(&image), "e8 $ { ' } 66 83 bc 24").ok(),
        Some(LOADED.base_address + CODE as u64 + 0x10)
    );
}

#[test]
fn hooks_that_match_nothing_are_not_found() {
    let image = image_of(&[0x90; 16]);
    assert_eq!(
        OnProcessDamageHook::new(()).setup(&LOADED, &view(&image)),
        Err(HookError::DamageNotFound)
    );
    assert_eq!(OnProcessDotHook::new(()).setup(&LOADED, &view(&image)), Err(HookError::DotNotFound));
    assert_eq!(
        OnLoadPlayerIdentityHook::new(()).setup(&LOADED, &view(&image)),
        Err(HookError::PlayerIdentityNotFound)
    );
}

#[test]
fn the_dot_function_and_the_identity_function_are_found() {
    let mut dot = vec![0x44, 0x89, 0x74, 0x24, 9, 0x48, 1, 2, 3, 4, 0x48, 5, 6, 0xE8];
    dot.extend(0x20i32.to_le_bytes());
    dot.push(0x4C);
    let image = image_of(&dot);
    assert_eq!(
        OnProcessDotHook::new(()).setup(&LOADED, &view(&image)),
        Ok(LOADED.base_address + CODE as u64 + 18 + 0x20)
    );

    let mut code = vec![0x90u8; 8];
    code.extend([
        0x55, 0x41, 0x57, 0x41, 0x56, 0x41, 0x54, 0x56, 0x57, 0x53, 0x48, 0x83, 0xEC, 0x70, 0x48,
        0x8D, 0x6C, 0x24, 0x70, 0x48, 0xC7, 0x45, 0xF8, 0xFE, 0xFF, 0xFF, 0xFF, 0x80, 0xB9, 0xBC,
        0x5E, 0x00, 0x00, 0x00,
    ]);
    let image = image_of(&code);
    assert_eq!(
        OnLoadPlayerIdentityHook::new(()).setup(&LOADED, &view(&image)),
        Ok(LOADED.base_address + CODE as u64 + 8)
    );
}

#[test]
fn signatures_stay_within_what_the_scanner_takes() {
    assert!(can_scan(""));
    assert!(can_scan("e8 $ { ' } @4 @v [1-2]"));
    assert!(can_scan(&"{".repeat(255)));
    assert!(!can_scan(&"{".repeat(256)));
    assert!(can_scan(&"[1]".repeat(256)));
    assert!(can_scan(&"[1-2]".repeat(255)));
    assert!(!can_scan(&"[1-2]".repeat(256)));
    assert!(!can_scan("@w"));
    assert!(!can_scan("90 @Z"));
    assert!(can_scan("90 @"));
    assert!(can_scan("\"@w\" 90"));
    assert!(can_scan(&format!("\"{}\"", "{-".repeat(300))));
    assert!(!can_scan("\"@w\" @w"));
    assert!(!can_scan("\"\"@w"));
}

#[test]
fn a_search_that_fails_says_why() {
    let image = image_of(&calls());

    assert!(matches!(
        LOADED.search_address(&view(&image), "zz zz xx"),
        Err(SearchError::InvalidPattern(_))
    ));
    assert!(matches!(LOADED.search_address(&view(&image), "cc cc cc"), Err(SearchError::NoMatch)));
    assert!(!has_code_in_image(&image[..0x40]));
    // A code range that starts behind the image, and one that wraps around.
    let mut behind = image.clone();
    behind[0x98 + 20..0x98 + 24].copy_from_slice(&0x3001u32.to_le_bytes());
    assert!(!has_code_in_image(&behind));
    assert!(matches!(LOADED.search_address(&view(&behind), "e8"), Err(SearchError::BadImage)));
    let mut wrapping = image.clone();
    wrapping[0x98 + 4..0x98 + 8].copy_from_slice(&u32::MAX.to_le_bytes());
    assert!(!has_code_in_image(&wrapping));
    assert!(has_code_in_image(&image));
    assert!(matches!(
        LOADED.search_match_address(&view(&wrapping), "e8"),
        Err(SearchError::BadImage)
    ));
}

struct Value;

impl Memory for Value {
    fn read_memory(&self, address: u64, length: usize) -> Option<Vec<u8>> {
        let expected = LOADED.base_address + CODE as u64 + 0x80;
        if address == expected && length == 4 {
            Some(vec![1, 2, 3, 4])
        } else {
            None
        }
    }
}

#[test]
fn a_captured_value_is_read() {
    let image = image_of(&calls());
    let signature = "e8 $ { ' } 66 83 bc 24";

    assert!(matches!(
        LOADED.search_slice(&Value, &view(&image), signature, 4),
        Ok(Some(bytes)) if bytes == [1, 2, 3, 4]
    ));
    assert!(matches!(LOADED.search_slice(&Value, &view(&image), signature, 5), Ok(None)));
    assert!(matches!(
        LOADED.search_slice(&Value, &view(&image), "cc cc cc", 4),
        Err(SearchError::NoMatch)
    ));
}

#[test]
fn quoted_text_and_fixed_skips_are_searched_for() {
    let image = image_of(b"....@w-{.abcdef");
    assert_eq!(
        LOADED.search_match_address(&view(&image), "\"@w-{\"").ok(),
        Some(LOADED.base_address + CODE as u64 + 4)
    );
    let skips = format!("40 {} 61", "[0][1]".repeat(4));
    assert_eq!(
        LOADED.search_match_address(&view(&image), &skips).ok(),
        Some(LOADED.base_address + CODE as u64 + 4)
    );
    let ranges = format!("40 {} 66", "[1-3]".repeat(6));
    assert_eq!(
        LOADED.search_match_address(&view(&image), &ranges).ok(),
        Some(LOADED.base_address + CODE as u64 + 4)
    );
}
