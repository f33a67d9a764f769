use stable_fs::{Error, FdStat, FileName, FileSystem, FileType, OpenFlags, Storage, Whence};

fn test_fs() -> FileSystem {
    FileSystem::new(Storage::new()).unwrap()
}

#[test]
fn test_create_file() {
    let mut fs = test_fs();

    let file = fs
        .create_file(fs.root_fd(), "test.txt", Default::default())
        .unwrap();

    assert!(file > fs.root_fd());
}

#[test]
fn remove_file() {
    let mut fs = test_fs();

    let _file = fs
        .create_file(fs.root_fd(), "test.txt", Default::default())
        .unwrap();
    let result = fs.remove_file(fs.root_fd(), "test.txt");

    assert!(result.is_ok());
}

#[test]
fn create_dir() {
    let mut fs = test_fs();

    let dir = fs
        .create_dir(fs.root_fd(), "test", FdStat::default())
        .unwrap();

    let fd = fs.create_file(dir, "file.txt", FdStat::default()).unwrap();
    fs.write(fd, "Hello, world!".as_bytes()).unwrap();

    let dir = fs
        .open_or_create(fs.root_fd(), "test", FdStat::default(), OpenFlags::empty())
        .unwrap();

    let fd = fs
        .open_or_create(dir, "file.txt", FdStat::default(), OpenFlags::empty())
        .unwrap();

    let mut buf = [0; 13];
    fs.read(fd, &mut buf).unwrap();
    assert_eq!(&buf, "Hello, world!".as_bytes());
}

#[test]
fn test_create_file_creates_a_few_files() {
    let mut fs = test_fs();

    let dir = fs.root_fd();

    fs.create_file(dir, "test1.txt", FdStat::default()).unwrap();
    fs.create_file(dir, "test2.txt", FdStat::default()).unwrap();
    fs.create_file(dir, "test3.txt", FdStat::default()).unwrap();

    let meta = fs.metadata(fs.root_fd()).unwrap();

    let entry_index = meta.first_dir_entry.unwrap();

    let entry1 = fs.get_direntry(fs.root_fd(), entry_index).unwrap();
    let entry2 = fs.get_direntry(fs.root_fd(), entry_index + 1).unwrap();
    let entry3 = fs.get_direntry(fs.root_fd(), entry_index + 2).unwrap();

    assert_eq!(entry1.prev_entry, None);
    assert_eq!(entry1.next_entry, Some(entry_index + 1));

    assert_eq!(entry2.prev_entry, Some(entry_index));
    assert_eq!(entry2.next_entry, Some(entry_index + 2));

    assert_eq!(entry3.prev_entry, Some(entry_index + 1));
    assert_eq!(entry3.next_entry, None);
}

#[test]
fn write_and_read_back_across_chunks() {
    let mut fs = test_fs();
    let fd = fs
        .create_file(fs.root_fd(), "big.bin", FdStat::default())
        .unwrap();

    let mut data = vec![0u8; 5000];
    for (i, b) in data.iter_mut().enumerate() {
        *b = (i % 251) as u8;
    }
    let written = fs.write(fd, &data).unwrap();
    assert_eq!(written, 5000);

    fs.seek(fd, 0, Whence::Start).unwrap();
    let mut buf = vec![0u8; 5000];
    let read = fs.read(fd, &mut buf).unwrap();
    assert_eq!(read, 5000);
    assert_eq!(buf, data);
}

#[test]
fn sparse_growth_reads_zero_gap() {
    let mut fs = test_fs();
    let fd = fs
        .create_file(fs.root_fd(), "sparse.bin", FdStat::default())
        .unwrap();

    fs.write(fd, b"ab").unwrap();
    fs.seek(fd, 10000, Whence::Start).unwrap();
    fs.write(fd, b"z").unwrap();

    fs.seek(fd, 0, Whence::Start).unwrap();
    let mut buf = vec![7u8; 10001];
    let read = fs.read(fd, &mut buf).unwrap();
    assert_eq!(read, 10001);
    assert_eq!(&buf[0..2], b"ab");
    assert!(buf[2..10000].iter().all(|b| *b == 0));
    assert_eq!(buf[10000], b'z');
}

#[test]
fn fd_independence() {
    let mut fs = test_fs();
    let fd1 = fs
        .create_file(fs.root_fd(), "shared.txt", FdStat::default())
        .unwrap();
    fs.write(fd1, b"payload").unwrap();

    let fd2 = fs
        .open_or_create(fs.root_fd(), "shared.txt", FdStat::default(), OpenFlags::empty())
        .unwrap();
    assert_ne!(fd1, fd2);

    fs.close(fd1).unwrap();

    let mut buf = [0u8; 7];
    let read = fs.read(fd2, &mut buf).unwrap();
    assert_eq!(read, 7);
    assert_eq!(&buf, b"payload");

    let mut stat = FdStat::default();
    stat.flags = 5;
    let fd3 = fs
        .open_or_create(fs.root_fd(), "shared.txt", FdStat::default(), OpenFlags::empty())
        .unwrap();
    fs.set_stat(fd2, stat).unwrap();
    let (_, stat2) = fs.get_stat(fd2).unwrap();
    let (_, stat3) = fs.get_stat(fd3).unwrap();
    assert_eq!(stat2.flags, 5);
    assert_eq!(stat3.flags, 0);
}

#[test]
fn duplicate_name_is_rejected() {
    let mut fs = test_fs();
    fs.create_file(fs.root_fd(), "dup.txt", FdStat::default())
        .unwrap();
    let second = fs.create_file(fs.root_fd(), "dup.txt", FdStat::default());
    assert_eq!(second.unwrap_err(), Error::FileAlreadyExists);

    let as_dir = fs.create_dir(fs.root_fd(), "dup.txt", FdStat::default());
    assert_eq!(as_dir.unwrap_err(), Error::FileAlreadyExists);
}

#[test]
fn name_too_long_is_rejected() {
    let mut fs = test_fs();
    let long_name: String = std::iter::repeat('a').take(256).collect();
    let res = fs.create_file(fs.root_fd(), &long_name, FdStat::default());
    assert_eq!(res.unwrap_err(), Error::NameTooLong);

    let ok_name: String = std::iter::repeat('a').take(255).collect();
    assert!(fs.create_file(fs.root_fd(), &ok_name, FdStat::default()).is_ok());
}

#[test]
fn open_without_create_fails() {
    let mut fs = test_fs();
    let res = fs.open_or_create(fs.root_fd(), "absent.txt", FdStat::default(), OpenFlags::empty());
    assert_eq!(res.unwrap_err(), Error::NotFound);
}

#[test]
fn read_on_directory_fails() {
    let mut fs = test_fs();
    let dir = fs
        .create_dir(fs.root_fd(), "somedir", FdStat::default())
        .unwrap();
    let mut buf = [0u8; 4];
    assert_eq!(fs.read(dir, &mut buf).unwrap_err(), Error::InvalidFileType);
    assert_eq!(fs.write(dir, b"x").unwrap_err(), Error::InvalidFileType);
}

#[test]
fn exclusive_open_is_rejected() {
    let mut fs = test_fs();
    fs.create_file(fs.root_fd(), "x.txt", FdStat::default())
        .unwrap();
    let mut flags = OpenFlags::empty();
    flags.exclusive = true;
    let res = fs.open_or_create(fs.root_fd(), "x.txt", FdStat::default(), flags);
    assert_eq!(res.unwrap_err(), Error::FileAlreadyExists);
}

#[test]
fn directory_flag_on_missing_name() {
    let mut fs = test_fs();
    let mut flags = OpenFlags::empty();
    flags.create = true;
    flags.directory = true;
    let res = fs.open_or_create(fs.root_fd(), "nodir", FdStat::default(), flags);
    assert_eq!(res.unwrap_err(), Error::InvalidFileType);
}

#[test]
fn truncate_on_open_empties_file() {
    let mut fs = test_fs();
    let fd = fs
        .create_file(fs.root_fd(), "t.txt", FdStat::default())
        .unwrap();
    fs.write(fd, b"some bytes").unwrap();

    let mut flags = OpenFlags::empty();
    flags.truncate = true;
    let fd2 = fs
        .open_or_create(fs.root_fd(), "t.txt", FdStat::default(), flags)
        .unwrap();

    let meta = fs.metadata(fd2).unwrap();
    assert_eq!(meta.size, 0);
    let mut buf = [9u8; 4];
    assert_eq!(fs.read(fd2, &mut buf).unwrap(), 0);
    assert_eq!(buf, [9u8; 4]);
}

#[test]
fn seek_negative_fails_without_clamping() {
    let mut fs = test_fs();
    let fd = fs
        .create_file(fs.root_fd(), "s.txt", FdStat::default())
        .unwrap();
    fs.write(fd, b"0123456789").unwrap();
    assert_eq!(fs.tell(fd).unwrap(), 10);

    let res = fs.seek(fd, -11, Whence::Current);
    assert_eq!(res.unwrap_err(), Error::InvalidOffset);
    assert_eq!(fs.tell(fd).unwrap(), 10);

    assert_eq!(fs.seek(fd, -4, Whence::End).unwrap(), 6);
    let mut buf = [0u8; 4];
    fs.read(fd, &mut buf).unwrap();
    assert_eq!(&buf, b"6789");
}

#[test]
fn remove_nonempty_directory_is_rejected() {
    let mut fs = test_fs();
    let dir = fs
        .create_dir(fs.root_fd(), "full", FdStat::default())
        .unwrap();
    fs.create_file(dir, "inner.txt", FdStat::default()).unwrap();

    let res = fs.remove_file(fs.root_fd(), "full");
    assert_eq!(res.unwrap_err(), Error::DirectoryNotEmpty);

    fs.remove_file(dir, "inner.txt").unwrap();
    assert!(fs.remove_file(fs.root_fd(), "full").is_ok());
}

#[test]
fn removed_name_is_gone() {
    let mut fs = test_fs();
    fs.create_file(fs.root_fd(), "gone.txt", FdStat::default())
        .unwrap();
    fs.remove_file(fs.root_fd(), "gone.txt").unwrap();
    let res = fs.open_or_create(fs.root_fd(), "gone.txt", FdStat::default(), OpenFlags::empty());
    assert_eq!(res.unwrap_err(), Error::NotFound);
}

#[test]
fn renumber_moves_handle() {
    let mut fs = test_fs();
    let fd = fs
        .create_file(fs.root_fd(), "r.txt", FdStat::default())
        .unwrap();
    fs.write(fd, b"hi").unwrap();

    let target = 77;
    fs.renumber(fd, target).unwrap();

    let mut buf = [0u8; 2];
    assert_eq!(fs.read(fd, &mut buf).unwrap_err(), Error::NotFound);
    fs.seek(target, 0, Whence::Start).unwrap();
    assert_eq!(fs.read(target, &mut buf).unwrap(), 2);
    assert_eq!(&buf, b"hi");
}

#[test]
fn metadata_and_times() {
    let mut fs = test_fs();
    let fd = fs
        .create_file(fs.root_fd(), "m.txt", FdStat::default())
        .unwrap();
    fs.set_accessed_time(fd, 111).unwrap();
    fs.set_modified_time(fd, 222).unwrap();

    let meta = fs.metadata(fd).unwrap();
    assert_eq!(meta.times.accessed, 111);
    assert_eq!(meta.times.modified, 222);
    assert_eq!(meta.file_type, FileType::RegularFile);
    assert_eq!(meta.link_count, 1);

    let by_node = fs.metadata_from_node(meta.node).unwrap();
    assert_eq!(by_node.times.accessed, 111);

    let mut updated = meta;
    updated.times.created = 333;
    fs.set_metadata(fd, updated).unwrap();
    assert_eq!(fs.metadata(fd).unwrap().times.created, 333);
}

#[test]
fn root_facts() {
    let fs = test_fs();
    assert_eq!(fs.root_path(), "/");
    let meta = fs.metadata(fs.root_fd()).unwrap();
    assert_eq!(meta.file_type, FileType::Directory);
    assert_eq!(meta.first_dir_entry, None);
    assert_eq!(meta.last_dir_entry, None);
}

#[test]
fn open_metadata_resolves_names() {
    let mut fs = test_fs();
    let fd = fs
        .create_file(fs.root_fd(), "om.txt", FdStat::default())
        .unwrap();
    fs.write(fd, b"xyz").unwrap();

    let meta = fs.open_metadata(fs.root_fd(), "om.txt").unwrap();
    assert_eq!(meta.size, 3);
    assert_eq!(meta.file_type, FileType::RegularFile);
    assert_eq!(
        fs.open_metadata(fs.root_fd(), "nope").unwrap_err(),
        Error::NotFound
    );
}

#[test]
fn file_type_codes_round_trip() {
    assert_eq!(FileType::try_from_code(3).unwrap(), FileType::Directory);
    assert_eq!(FileType::try_from_code(4).unwrap(), FileType::RegularFile);
    assert_eq!(FileType::try_from_code(7).unwrap(), FileType::SymbolicLink);
    assert_eq!(
        FileType::try_from_code(5).unwrap_err(),
        Error::InvalidFileType
    );
    assert_eq!(FileType::Directory.to_code(), 3);
    assert_eq!(FileType::RegularFile.to_code(), 4);
    assert_eq!(FileType::SymbolicLink.to_code(), 7);
}

#[test]
fn filename_bounds() {
    let ok = FileName::new("hello.txt").unwrap();
    assert_eq!(ok.length, 9);
    assert_eq!(&ok.bytes[0..9], b"hello.txt");
    assert!(ok.bytes[9..].iter().all(|b| *b == 0));

    let long: String = std::iter::repeat('x').take(256).collect();
    assert_eq!(FileName::new(&long).unwrap_err(), Error::NameTooLong);
}
