use libpseudos::dos_error_codes::DosErrorCode;
use libpseudos::dos_file_system::{
    filename_matches_spec, real_to_dos_name, split_filename, std_file_error_to_dos_error,
    DirListingCache, DosFileAccessMode, DosFileName, DosFileSeekOrigin, HostIoError,
    StandardDosFileSystem,
};

fn chars(s: &str) -> Vec<char> {
    s.chars().collect()
}

#[test]
fn test_dir_listing_cache() {
    let mut dir_listing = DirListingCache::new();
    assert_eq!(
        String::from_utf8_lossy(&dir_listing.get_dos_name("foot.text").real_dos_name()),
        String::from_utf8_lossy(b"FOOT.TEX")
    );
    assert_eq!(
        String::from_utf8_lossy(&dir_listing.get_dos_name("foot.text2").real_dos_name()),
        String::from_utf8_lossy(b"FOOT~1.TEX")
    );
    assert_eq!(
        String::from_utf8_lossy(&dir_listing.get_dos_name("filewithlongname.txt").real_dos_name()),
        String::from_utf8_lossy(b"FILEWITH.TXT")
    );
    assert_eq!(
        String::from_utf8_lossy(&dir_listing.get_dos_name("filewithlongername.txt").real_dos_name()),
        String::from_utf8_lossy(b"FILEWI~1.TXT")
    );
    assert_eq!(
        String::from_utf8_lossy(
            &dir_listing.get_dos_name("filewithlongerername.txt").real_dos_name()
        ),
        String::from_utf8_lossy(b"FILEWI~2.TXT")
    );
}

#[test]
fn test_dos_name_is_stable_across_calls() {
    let mut dir_listing = DirListingCache::new();
    let first = dir_listing.get_dos_name("foot.text").real_dos_name();
    let second = dir_listing.get_dos_name("foot.text").real_dos_name();
    assert_eq!(first, second);
}

#[test]
fn test_real_to_dos_name_plain() {
    let name = real_to_dos_name("hello.txt", None);
    assert_eq!(name.real_dos_name(), b"HELLO.TXT".to_vec());
    let indexed = real_to_dos_name("hello.txt", Some(3));
    assert_eq!(indexed.real_dos_name(), b"HELLO~3.TXT".to_vec());
}

#[test]
fn test_real_to_dos_name_non_ascii() {
    let name = real_to_dos_name("h\u{2603}.txt", None);
    assert_eq!(name.real_dos_name(), b"H_.TXT".to_vec());
}

#[test]
fn test_split_filename() {
    let (title, ext) = split_filename(b"archive.tar.gz");
    assert_eq!(title, b"archive.tar".to_vec());
    assert_eq!(ext, Some(b"gz".to_vec()));
    let (title, ext) = split_filename(b"noext");
    assert_eq!(title, b"noext".to_vec());
    assert_eq!(ext, None);
    let (title, ext) = split_filename(b"a.longext");
    assert_eq!(title, b"a".to_vec());
    assert_eq!(ext, Some(b"lon".to_vec()));
}

#[test]
fn test_wildcard_star_dot_star() {
    let named = DosFileName::parse(b"A.TXT");
    assert!(filename_matches_spec(&named, b"*.*"));
    // a trailing `*` matches the empty field, so names without an
    // extension match `*.*` too
    let no_ext = DosFileName::parse(b"README");
    assert!(filename_matches_spec(&no_ext, b"*.*"));
}

#[test]
fn test_wildcard_trailing_star_matches_empty_run() {
    let named = DosFileName::parse(b"A.TXT");
    assert!(filename_matches_spec(&named, b"A*.TXT"));
    let ab = DosFileName::parse(b"AB.TXT");
    assert!(filename_matches_spec(&ab, b"A*.TXT"));
    assert!(!filename_matches_spec(&named, b"B*.TXT"));
}

#[test]
fn test_wildcard_question_and_literal() {
    let named = DosFileName::parse(b"AB.TXT");
    assert!(filename_matches_spec(&named, b"?B.TXT"));
    assert!(!filename_matches_spec(&named, b"?C.TXT"));
    assert!(filename_matches_spec(&named, b"AB.TXT"));
    assert!(filename_matches_spec(&named, b"AB"));
}

#[test]
fn test_open_read_seek_close() {
    let mut fs = StandardDosFileSystem::new();
    fs.add_host_file(chars("HELLO.TXT"), b"HELLO WORLD".to_vec());
    let handle = fs.open(b"HELLO.TXT", DosFileAccessMode::ReadOnly).unwrap();
    assert_eq!(handle, 1);
    let bytes = fs.read(handle, 5).unwrap();
    assert_eq!(bytes, b"HELLO".to_vec());
    let pos = fs.seek(handle, 0, DosFileSeekOrigin::End).unwrap();
    assert_eq!(pos, 0x0b);
    assert!(fs.close(handle).is_ok());
    assert_eq!(fs.read(handle, 1), Err(DosErrorCode::InvalidFileHandle));
    assert_eq!(DosErrorCode::InvalidFileHandle.code(), 0x06);
}

#[test]
fn test_closed_handle_rejected_everywhere() {
    let mut fs = StandardDosFileSystem::new();
    fs.add_host_file(chars("A.DAT"), vec![1, 2, 3]);
    let h = fs.open(b"A.DAT", DosFileAccessMode::ReadOnly).unwrap();
    fs.close(h).unwrap();
    assert_eq!(fs.read(h, 1), Err(DosErrorCode::InvalidFileHandle));
    assert_eq!(fs.write(h, b"x"), Err(DosErrorCode::InvalidFileHandle));
    assert_eq!(
        fs.seek(h, 0, DosFileSeekOrigin::Start),
        Err(DosErrorCode::InvalidFileHandle)
    );
    assert_eq!(fs.close(h), Err(DosErrorCode::InvalidFileHandle));
}

#[test]
fn test_handle_zero_is_always_invalid() {
    let mut fs = StandardDosFileSystem::new();
    assert_eq!(fs.read(0, 1), Err(DosErrorCode::InvalidFileHandle));
    assert_eq!(fs.close(0), Err(DosErrorCode::InvalidFileHandle));
    assert_eq!(
        fs.seek(0, 0, DosFileSeekOrigin::Start),
        Err(DosErrorCode::InvalidFileHandle)
    );
}

#[test]
fn test_handles_are_one_based_and_slots_reused() {
    let mut fs = StandardDosFileSystem::new();
    fs.add_host_file(chars("A.DAT"), vec![]);
    let h1 = fs.open(b"A.DAT", DosFileAccessMode::ReadOnly).unwrap();
    let h2 = fs.open(b"A.DAT", DosFileAccessMode::ReadOnly).unwrap();
    assert_eq!(h1, 1);
    assert_eq!(h2, 2);
    fs.close(h1).unwrap();
    let h3 = fs.open(b"A.DAT", DosFileAccessMode::ReadOnly).unwrap();
    assert_eq!(h3, 1);
}

#[test]
fn test_open_missing_read_only_is_not_found() {
    let mut fs = StandardDosFileSystem::new();
    assert_eq!(
        fs.open(b"NOPE.TXT", DosFileAccessMode::ReadOnly),
        Err(DosErrorCode::FileNotFound)
    );
    assert_eq!(DosErrorCode::FileNotFound.code(), 0x02);
}

#[test]
fn test_open_missing_write_mode_creates() {
    let mut fs = StandardDosFileSystem::new();
    let h = fs.open(b"NEW.TXT", DosFileAccessMode::ReadWrite).unwrap();
    assert_eq!(h, 1);
    assert_eq!(fs.host_file_data(&chars("NEW.TXT")), Some(vec![]));
}

#[test]
fn test_create_truncates_existing() {
    let mut fs = StandardDosFileSystem::new();
    fs.add_host_file(chars("OLD.TXT"), b"previous contents".to_vec());
    let h = fs.create(b"OLD.TXT", 0).unwrap();
    assert_eq!(h, 1);
    assert_eq!(fs.host_file_data(&chars("OLD.TXT")), Some(vec![]));
}

#[test]
fn test_write_path_is_rejected() {
    let mut fs = StandardDosFileSystem::new();
    fs.add_host_file(chars("A.DAT"), vec![]);
    let h = fs.open(b"A.DAT", DosFileAccessMode::WriteOnly).unwrap();
    assert_eq!(fs.write(h, b"data"), Err(DosErrorCode::AccessDenied));
    assert_eq!(DosErrorCode::AccessDenied.code(), 0x05);
}

#[test]
fn test_seek_origins() {
    let mut fs = StandardDosFileSystem::new();
    fs.add_host_file(chars("S.DAT"), vec![0; 100]);
    let h = fs.open(b"S.DAT", DosFileAccessMode::ReadOnly).unwrap();
    assert_eq!(fs.seek(h, 10, DosFileSeekOrigin::Start), Ok(10));
    assert_eq!(fs.seek(h, 0xffff_fffb, DosFileSeekOrigin::Current), Ok(5));
    assert_eq!(fs.seek(h, 0xffff_ff9c, DosFileSeekOrigin::End), Ok(0));
    assert_eq!(
        fs.seek(h, 0xffff_fffb, DosFileSeekOrigin::Current),
        Err(DosErrorCode::PathNotFound)
    );
}

#[test]
fn test_read_past_end_is_clipped() {
    let mut fs = StandardDosFileSystem::new();
    fs.add_host_file(chars("R.DAT"), b"abc".to_vec());
    let h = fs.open(b"R.DAT", DosFileAccessMode::ReadOnly).unwrap();
    assert_eq!(fs.read(h, 10).unwrap(), b"abc".to_vec());
    assert_eq!(fs.read(h, 10).unwrap(), Vec::<u8>::new());
}

#[test]
fn test_find_first_next() {
    let mut fs = StandardDosFileSystem::new();
    fs.add_host_file(chars("A.TXT"), vec![]);
    fs.add_host_file(chars("B.TXT"), vec![]);
    fs.add_host_file(chars("C.BAT"), vec![]);
    let mut dta = vec![0xee_u8; 128];
    fs.find_first_file(&mut dta, 0, b"*.TXT").unwrap();
    assert_eq!(&dta[0x1e..0x24], b"A.TXT\0");
    fs.find_next_file(&mut dta).unwrap();
    assert_eq!(&dta[0x1e..0x24], b"B.TXT\0");
    assert_eq!(fs.find_next_file(&mut dta), Err(DosErrorCode::NoMoreFiles));
    assert_eq!(DosErrorCode::NoMoreFiles.code(), 0x12);
}

#[test]
fn test_find_zeroes_reserved_dta_bytes() {
    let mut fs = StandardDosFileSystem::new();
    fs.add_host_file(chars("A.TXT"), vec![]);
    let mut dta = vec![0xee_u8; 128];
    fs.find_first_file(&mut dta, 0, b"*.TXT").unwrap();
    for i in 0x15..0x1e {
        assert_eq!(dta[i], 0);
    }
    assert_eq!(dta[0x14], 0xee);
}

#[test]
fn test_find_next_without_cursor() {
    let mut fs = StandardDosFileSystem::new();
    let mut dta = vec![0_u8; 128];
    assert_eq!(fs.find_next_file(&mut dta), Err(DosErrorCode::NoMoreFiles));
}

#[test]
fn test_host_error_mapping() {
    assert_eq!(
        std_file_error_to_dos_error(HostIoError::NotFound),
        DosErrorCode::FileNotFound
    );
    assert_eq!(
        std_file_error_to_dos_error(HostIoError::PermissionDenied),
        DosErrorCode::AccessDenied
    );
    assert_eq!(
        std_file_error_to_dos_error(HostIoError::AlreadyExists),
        DosErrorCode::FileAlreadyExists
    );
    assert_eq!(
        std_file_error_to_dos_error(HostIoError::Other),
        DosErrorCode::PathNotFound
    );
    assert_eq!(DosErrorCode::FileAlreadyExists.code(), 0x50);
    assert_eq!(DosErrorCode::PathNotFound.code(), 0x03);
    assert_eq!(DosErrorCode::NoFileHandlesLeft.code(), 0x04);
    assert_eq!(DosErrorCode::InsufficientMemory.code(), 0x08);
    assert_eq!(DosErrorCode::InvalidFileAccessMode.code(), 0x0c);
    assert_eq!(DosErrorCode::InvalidData.code(), 0x0d);
}

#[test]
fn test_cache_round_trips_host_and_dos_names() {
    let mut dir_listing = DirListingCache::new();
    let dos = dir_listing.get_dos_name("Some Long File.txt");
    let host = dir_listing.get_real_name(&dos);
    assert_eq!(host.iter().collect::<String>(), "Some Long File.txt");
    let again = dir_listing.get_dos_name("Some Long File.txt");
    assert_eq!(again.real_dos_name(), dos.real_dos_name());
}

#[test]
fn test_find_first_replaces_cursor_wholesale() {
    let mut fs = StandardDosFileSystem::new();
    fs.add_host_file(chars("A.TXT"), vec![]);
    fs.add_host_file(chars("B.BAT"), vec![]);
    let mut dta = vec![0_u8; 128];
    fs.find_first_file(&mut dta, 0, b"*.TXT").unwrap();
    fs.find_first_file(&mut dta, 0, b"*.BAT").unwrap();
    assert_eq!(&dta[0x1e..0x24], b"B.BAT\0");
    assert_eq!(fs.find_next_file(&mut dta), Err(DosErrorCode::NoMoreFiles));
}

#[test]
fn test_open_resolves_uppercase_to_host_name() {
    let mut fs = StandardDosFileSystem::new();
    fs.add_host_file(chars("hello.txt"), b"hi".to_vec());
    let h = fs.open(b"HELLO.TXT", DosFileAccessMode::ReadOnly).unwrap();
    assert_eq!(fs.read(h, 2).unwrap(), b"hi".to_vec());
}
