use std::collections::HashMap;
use std::path::PathBuf;

use server_common::gen_sk::{gen_sk, GenSk, KeyError, KeyStage};
use server_common::key_files::{
    Action, Event, PathId, PRIVATE_KEY_FILE_MODE, PRIVATE_KEY_PATH, PUBLIC_KEY_PATH,
};
use server_common::key_messages::{tell, write_octal};
use server_common::key_path::{resolve_key_path, Resolve, ResolveError, MAX_KEY_SYMLINKS};
use server_common::link_target::link_target;
use server_common::key_permissions::{set_private_key_permissions, PermissionError, Permissions};
use server_common::private_key::{
    create_private_key_file, NewFileError, PrivateKeyError, PrivateKeyStage,
};
use server_common::public_key::{
    missing_public_key_path, publish_public_key, write_public_key, PublicKeyCheck, PublicKeyError,
    PublicKeyPublish, PublicKeyStage,
};
use server_common::secret_key::{generate_key_pair, keep_key, parse_secret_key, SecretKey};
use server_common::temporary_name::{new_temporary_name, temporary_name};

const KEY_ALIAS: PathId = 10;
const KEY_TARGET: PathId = 11;
const REGULAR_FILE: u32 = 0o100000;
const SAMPLE_KEY: &str =
    "AAECAwQFBgcICQoLDA0ODxAREhMUFRYXGBkaGxwdHh8gISIjJCUmJygpKissLS4vMDEyMzQ1Njc4OTo7PD0+Pw==";
const SAMPLE_PUBLIC_KEY: &str = "ICEiIyQlJicoKSorLC0uLzAxMjM0NTY3ODk6Ozw9Pj8=";

#[derive(Clone, PartialEq, Debug)]
struct DiskFile {
    text: String,
    mode: u32,
    inode: u64,
}

/// A file system in memory.
#[derive(Clone)]
struct Disk {
    files: HashMap<PathId, DiskFile>,
    links: HashMap<PathId, PathId>,
    directories: Vec<PathId>,
    key_file: Option<PathId>,
    temporary: Option<DiskFile>,
    umask: u32,
    /// How many characters a file can hold.
    size_limit: usize,
    /// Whether no file can be created.
    read_only: bool,
    /// Whether setting permissions does nothing.
    ignores_modes: bool,
    /// The number of the request that fails, and whether half of a write is done before.
    broken_step: Option<(usize, bool)>,
    inodes: u64,
    slept: Vec<u64>,
}

impl Disk {
    fn new() -> Disk {
        Disk {
            files: HashMap::new(),
            links: HashMap::new(),
            directories: Vec::new(),
            key_file: None,
            temporary: None,
            umask: 0o022,
            size_limit: 1000,
            read_only: false,
            ignores_modes: false,
            broken_step: None,
            inodes: 0,
            slept: Vec::new(),
        }
    }

    fn new_file(&mut self, text: &str, mode: u32) -> DiskFile {
        self.inodes += 1;
        DiskFile { text: text.to_string(), mode: REGULAR_FILE | (mode & !self.umask), inode: self.inodes }
    }

    fn put(&mut self, path: PathId, text: &str) {
        let file = self.new_file(text, 0o666);
        self.files.insert(path, file);
    }

    fn text(&self, path: PathId) -> &str {
        self.files[&path].text.as_str()
    }

    fn permissions(&self, path: PathId) -> u32 {
        self.files[&path].mode & 0o777
    }

    fn target(&self, path: PathId) -> Option<PathId> {
        let mut path = path;
        for _ in 0..=40 {
            match self.links.get(&path) {
                Some(next) => path = *next,
                None => return Some(path),
            }
        }
        None
    }

    fn is_free(&self, path: PathId) -> bool {
        !self.files.contains_key(&path)
            && !self.links.contains_key(&path)
            && !self.directories.contains(&path)
    }

    /// As much of `text` as fits, and whether that is all.
    fn fitting(&self, text: &str) -> (String, bool) {
        (text.chars().take(self.size_limit).collect(), text.chars().count() <= self.size_limit)
    }

    fn answer(&mut self, action: Action, key: &str, public_key: &str) -> Event {
        match action {
            Action::Exists(path) => match self.target(path) {
                Some(target) if self.files.contains_key(&target) => Event::Present,
                _ => Event::NotFound,
            },
            Action::Sleep(wait) => {
                self.slept.push(wait);
                Event::Done
            }
            Action::Open(path) => match self.target(path) {
                Some(target) if self.files.contains_key(&target) => {
                    self.key_file = Some(target);
                    Event::Done
                }
                Some(target) if self.is_free(target) => Event::NotFound,
                _ => Event::Failed,
            },
            Action::CreateNew(path, mode) => {
                if self.read_only {
                    return Event::Failed;
                }
                if !self.is_free(path) {
                    return Event::AlreadyExists;
                }
                assert_eq!(mode, PRIVATE_KEY_FILE_MODE);
                let file = self.new_file("", mode);
                self.files.insert(path, file);
                self.key_file = Some(path);
                Event::Done
            }
            Action::ReadMode => Event::Mode(self.files[&self.key_file.unwrap()].mode),
            Action::SetMode(mode) => {
                if !self.ignores_modes {
                    self.files.get_mut(&self.key_file.unwrap()).unwrap().mode = REGULAR_FILE | mode;
                }
                Event::Done
            }
            Action::ReadKey => Event::Text(self.files[&self.key_file.unwrap()].text.clone()),
            Action::WriteKey => {
                let (text, all) = self.fitting(key);
                self.files.get_mut(&self.key_file.unwrap()).unwrap().text = text;
                if all { Event::Done } else { Event::Failed }
            }
            Action::Remove(path) => {
                self.key_file = None;
                match self.files.remove(&path) {
                    Some(_) => Event::Done,
                    None => Event::NotFound,
                }
            }
            Action::Inspect(path) => {
                if self.links.contains_key(&path) {
                    Event::Symlink
                } else if self.is_free(path) {
                    Event::NotFound
                } else {
                    Event::Done
                }
            }
            Action::FollowLink(path) => match self.links.get(&path) {
                Some(target) => Event::Link(*target),
                None => Event::Failed,
            },
            Action::ReadText(path) => match self.files.get(&path) {
                Some(file) => Event::Text(file.text.clone()),
                None if self.directories.contains(&path) => Event::Failed,
                None => Event::NotFound,
            },
            Action::CreateTemporary(_) => {
                if self.read_only {
                    return Event::Failed;
                }
                let file = self.new_file("", 0o666);
                self.temporary = Some(file);
                Event::Done
            }
            Action::ReadTemporaryMode => Event::Mode(self.temporary.as_ref().unwrap().mode),
            Action::SetTemporaryMode(mode) => {
                self.temporary.as_mut().unwrap().mode = mode;
                Event::Done
            }
            Action::WriteTemporary => {
                let (text, all) = self.fitting(public_key);
                self.temporary.as_mut().unwrap().text = text;
                if all { Event::Done } else { Event::Failed }
            }
            Action::SyncTemporary => Event::Done,
            Action::Publish(path) => {
                if !self.is_free(path) {
                    return Event::AlreadyExists;
                }
                let file = self.temporary.take().unwrap();
                self.files.insert(path, file);
                Event::Done
            }
            Action::DiscardTemporary => {
                self.temporary = None;
                Event::Done
            }
        }
    }

    fn broken_answer(&mut self, action: Action, key: &str, public_key: &str, half: bool) -> Event {
        if half {
            match action {
                Action::WriteKey => {
                    let text = key.chars().take(key.len() / 2).collect();
                    self.files.get_mut(&self.key_file.unwrap()).unwrap().text = text;
                }
                Action::WriteTemporary => {
                    let text = public_key.chars().take(public_key.len() / 2).collect();
                    self.temporary.as_mut().unwrap().text = text;
                }
                _ => {}
            }
        }
        Event::Failed
    }

    fn gen_sk(&mut self, wait: u64) -> Result<(String, Vec<u8>), KeyError> {
        let mut machine: GenSk = gen_sk(wait, true);
        let mut step = 0;
        while let Some(action) = machine.action() {
            let key = machine.key_text().unwrap_or_default();
            let public_key = machine.public_key().unwrap_or_default();
            machine = match self.broken_step {
                Some((broken, half)) if broken == step => {
                    machine.step(self.broken_answer(action, &key, &public_key, half))
                }
                _ => machine.step(self.answer(action, &key, &public_key)),
            };
            step += 1;
            assert!(step <= 900);
        }
        match machine.outcome().unwrap() {
            Ok((public_key, key)) => Ok((public_key, key.as_bytes().to_vec())),
            Err(error) => Err(error),
        }
    }

    fn resolve_key_path(&mut self, path: PathId) -> Resolve {
        let mut search = resolve_key_path(path);
        while let Some(action) = search.action() {
            search = search.step(&self.answer(action, "", ""));
        }
        search
    }

    fn settle(&mut self, path: PathId, newly_created: bool) -> Permissions {
        self.key_file = self.target(path);
        let mut permissions = set_private_key_permissions(newly_created);
        while let Some(action) = permissions.action() {
            permissions = permissions.step(&self.answer(action, "", ""));
        }
        permissions
    }

    fn create(&mut self, path: PathId, text: &str) -> PrivateKeyStage {
        let mut create = create_private_key_file(path, true);
        while let Some(action) = create.action() {
            create = create.step(&self.answer(action, text, ""));
        }
        create.stage
    }

    fn check(&mut self, path: PathId, public_key: &str) -> PublicKeyCheck {
        let public_key = public_key.to_string();
        let mut check = missing_public_key_path(path);
        while let Some(action) = check.action() {
            check = check.step(&self.answer(action, "", &public_key), &public_key);
        }
        check
    }

    fn prepare(&mut self, public_key: &str) -> DiskFile {
        self.new_file(public_key, 0o600)
    }

    fn publish(&mut self, file: DiskFile, path: PathId, public_key: &str) -> PublicKeyPublish {
        self.temporary = Some(file);
        let public_key = public_key.to_string();
        let mut publish = publish_public_key(path);
        while let Some(action) = publish.action() {
            publish = publish.step(&self.answer(action, "", &public_key), &public_key);
        }
        publish
    }

    fn write(&mut self, path: PathId, public_key: &str, required: bool) -> PublicKeyStage {
        let public_key = public_key.to_string();
        let mut write = write_public_key(path, required, true);
        while let Some(action) = write.action() {
            write = write.step(&self.answer(action, "", &public_key), &public_key);
        }
        write.stage
    }
}

fn read_key(text: &str) -> SecretKey {
    match parse_secret_key(text) {
        Ok(key) => key,
        Err(fault) => panic!("{:?}", fault),
    }
}

fn told(error: &KeyError) -> String {
    tell(&error.story("the-path", "the-reason"), if error.has_reason() { Some("io") } else { None })
}

#[test]
fn key_path_symlinks_are_bounded() {
    let mut disk = Disk::new();
    let target: PathId = 100;
    let mut path = target;
    for index in 0..MAX_KEY_SYMLINKS {
        let link = 200 + index as PathId;
        disk.links.insert(link, path);
        path = link;
    }
    assert_eq!(disk.resolve_key_path(path), Resolve::Resolved(target));
    let extra: PathId = 300;
    disk.links.insert(extra, path);
    let cycle: PathId = 301;
    disk.links.insert(cycle, cycle);
    for path in [extra, cycle] {
        match disk.resolve_key_path(path) {
            Resolve::Failed(error) => {
                let told = tell(&error.story("the-path"), None);
                assert!(told.starts_with("Too many key symlinks"));
                assert_eq!(told, "Too many key symlinks (limit: 40): the-path");
            }
            _ => panic!("too many links"),
        }
    }
    // The path that is told is the one that the last link led to.
    assert_eq!(
        disk.resolve_key_path(extra),
        Resolve::Failed(ResolveError::TooManySymlinks(200))
    );
}

#[test]
fn private_key_file_permissions() {
    let mut disk = Disk::new();
    disk.links.insert(PRIVATE_KEY_PATH, KEY_ALIAS);
    disk.links.insert(KEY_ALIAS, KEY_TARGET);
    for limit in [0, 16] {
        disk.size_limit = limit;
        assert!(disk.gen_sk(0).is_err());
        assert!(disk.links.contains_key(&PRIVATE_KEY_PATH) && disk.links.contains_key(&KEY_ALIAS));
        assert!(!disk.files.contains_key(&KEY_TARGET));
        assert!(!disk.files.contains_key(&PUBLIC_KEY_PATH));
    }
    disk.size_limit = 1000;
    let public_key = check_public_key_recovery(&mut disk);
    assert_eq!(disk.permissions(KEY_TARGET), 0o600);
    let contents = disk.text(KEY_TARGET).to_string();
    disk.files.get_mut(&KEY_TARGET).unwrap().mode = REGULAR_FILE | 0o644;
    assert_eq!(
        disk.settle(PRIVATE_KEY_PATH, true),
        Permissions::Failed(PermissionError::UnsafeInitial(0o644))
    );
    assert_eq!(disk.permissions(KEY_TARGET), 0o644);
    assert!(disk.gen_sk(0).is_ok());
    assert_eq!(disk.permissions(KEY_TARGET), 0o600);
    assert_eq!(disk.text(KEY_TARGET), contents);
    assert_eq!(
        disk.create(PRIVATE_KEY_PATH, "do not overwrite"),
        PrivateKeyStage::Failed(PrivateKeyError::Create(KEY_TARGET))
    );
    assert_eq!(disk.text(KEY_TARGET), contents);
    disk.files.get_mut(&KEY_TARGET).unwrap().mode = REGULAR_FILE | 0o400;
    disk.files.get_mut(&PUBLIC_KEY_PATH).unwrap().mode = REGULAR_FILE | 0o400;
    assert_eq!(disk.gen_sk(0).unwrap().0, public_key);
    assert_eq!(disk.permissions(KEY_TARGET), 0o400);

    disk.links.remove(&PRIVATE_KEY_PATH);
    disk.files.remove(&PUBLIC_KEY_PATH);
    disk.umask = 0o777;
    assert!(disk.gen_sk(0).is_ok());
    assert_eq!(disk.permissions(PRIVATE_KEY_PATH), 0o600);
    assert_eq!(disk.permissions(PUBLIC_KEY_PATH), 0o600);
    let contents = disk.text(PRIVATE_KEY_PATH).to_string();
    assert!(disk.gen_sk(0).is_ok());
    assert_eq!(disk.text(PRIVATE_KEY_PATH), contents);
}

fn check_public_key_recovery(disk: &mut Disk) -> String {
    let mismatched_key = generate_key_pair().0;
    disk.put(PUBLIC_KEY_PATH, &mismatched_key);
    assert!(disk.gen_sk(0).is_err());
    assert!(!disk.files.contains_key(&KEY_TARGET));
    assert_eq!(disk.text(PUBLIC_KEY_PATH), mismatched_key);
    disk.files.remove(&PUBLIC_KEY_PATH);
    let public_key = disk.gen_sk(0).unwrap().0;
    let private_key = disk.text(KEY_TARGET).to_string();
    disk.files.remove(&PUBLIC_KEY_PATH);
    disk.directories.push(PUBLIC_KEY_PATH);
    assert!(disk.gen_sk(0).is_err());
    disk.directories.clear();
    assert_eq!(disk.gen_sk(0).unwrap().0, public_key);
    assert_eq!(disk.text(PUBLIC_KEY_PATH), public_key);

    disk.files.remove(&PUBLIC_KEY_PATH);
    disk.size_limit = 16;
    assert!(disk.gen_sk(0).is_err());
    assert!(disk.temporary.is_none());
    disk.size_limit = 1000;
    assert!(!disk.files.contains_key(&PUBLIC_KEY_PATH));
    assert_eq!(disk.gen_sk(0).unwrap().0, public_key);
    assert_eq!(disk.text(PUBLIC_KEY_PATH), public_key);

    disk.files.remove(&PUBLIC_KEY_PATH);
    let pending = disk.prepare(&public_key);
    assert!(disk.gen_sk(0).is_ok());
    let inode = disk.files[&PUBLIC_KEY_PATH].inode;
    assert_eq!(disk.publish(pending, PUBLIC_KEY_PATH, &public_key), PublicKeyPublish::Published);
    assert!(disk.temporary.is_none());
    let pending = disk.prepare(&mismatched_key);
    assert_eq!(
        disk.publish(pending, PUBLIC_KEY_PATH, &mismatched_key),
        PublicKeyPublish::Failed(PublicKeyError::Mismatch(PUBLIC_KEY_PATH))
    );
    assert!(disk.temporary.is_none());
    assert_eq!(disk.files[&PUBLIC_KEY_PATH].inode, inode);
    assert_eq!(disk.text(PUBLIC_KEY_PATH), public_key);
    disk.put(PUBLIC_KEY_PATH, &mismatched_key);
    assert!(disk.gen_sk(0).is_err());
    assert_eq!(disk.text(KEY_TARGET), private_key);
    assert_eq!(disk.text(PUBLIC_KEY_PATH), mismatched_key);
    disk.put(PUBLIC_KEY_PATH, &public_key);
    public_key
}

#[test]
fn key_texts_are_base64() {
    let bytes: Vec<u8> = (0..64).collect();
    let key = SecretKey::from_slice(&bytes).unwrap();
    assert_eq!(key.as_bytes(), bytes.as_slice());
    assert_eq!(key.text(), SAMPLE_KEY);
    assert_eq!(key.public_key(), SAMPLE_PUBLIC_KEY);
    let all = SecretKey::from_slice(&[0xff; 64]).unwrap();
    assert_eq!(all.public_key(), "//////////////////////////////////////////8=");
    assert!(SecretKey::from_slice(&bytes[..63]).is_none());
    assert!(SecretKey::from_slice(&[]).is_none());
    assert!(SecretKey::from_slice(&[0; 65]).is_none());
}

#[test]
fn key_file_text_is_read() {
    let bytes: Vec<u8> = (0..64).collect();
    for text in [SAMPLE_KEY.to_string(), format!("\n {}\r\n\u{a0}", SAMPLE_KEY), SAMPLE_KEY.replace('=', ""), SAMPLE_KEY.replace("==", "=")] {
        assert_eq!(read_key(&text).as_bytes(), bytes.as_slice());
    }
    for text in ["", "AAAA", SAMPLE_PUBLIC_KEY, &SAMPLE_KEY[1..], "?", &format!("{} x", SAMPLE_KEY), &format!("{}=", SAMPLE_KEY)] {
        assert!(parse_secret_key(text).is_err(), "{}", text);
    }
}

#[test]
fn drawn_keys_are_handy() {
    let mut seen: Vec<String> = Vec::new();
    for _ in 0..50 {
        let (public_key, key) = generate_key_pair();
        assert_eq!(public_key, key.public_key());
        assert_eq!(public_key.len(), 44);
        assert!(!public_key.contains('/') && !public_key.contains(':'));
        assert_eq!(read_key(&key.text()).as_bytes(), key.as_bytes());
        assert!(!seen.contains(&public_key));
        seen.push(public_key);
    }
}

#[test]
fn awkward_keys_are_put_back_up_to_300_times() {
    assert!(keep_key("abc+=", 0));
    assert!(!keep_key("a/c", 0));
    assert!(!keep_key("a:c", 299));
    assert!(keep_key("a/c", 300));
}

#[test]
fn existing_key_is_taken() {
    let mut disk = Disk::new();
    disk.put(PRIVATE_KEY_PATH, &format!("{}\n", SAMPLE_KEY));
    let (public_key, key) = disk.gen_sk(5000).unwrap();
    assert_eq!(public_key, SAMPLE_PUBLIC_KEY);
    assert_eq!(key, (0..64).collect::<Vec<u8>>());
    assert_eq!(disk.text(PUBLIC_KEY_PATH), SAMPLE_PUBLIC_KEY);
    assert_eq!(disk.permissions(PRIVATE_KEY_PATH), 0o600);
    assert_eq!(disk.permissions(PUBLIC_KEY_PATH), 0o644);
    assert!(disk.slept.is_empty());
    // A public key's file may have white space around the key.
    disk.put(PUBLIC_KEY_PATH, &format!(" {}\n", SAMPLE_PUBLIC_KEY));
    assert!(disk.gen_sk(0).is_ok());
    assert_eq!(disk.text(PUBLIC_KEY_PATH), format!(" {}\n", SAMPLE_PUBLIC_KEY));
}

#[test]
fn missing_key_is_waited_for() {
    let mut disk = Disk::new();
    assert!(disk.gen_sk(0).is_ok());
    assert!(disk.slept.is_empty());
    let mut disk = Disk::new();
    let (public_key, key) = disk.gen_sk(300).unwrap();
    assert_eq!(disk.slept, vec![300]);
    let again = disk.gen_sk(300).unwrap();
    assert_eq!(again, (public_key, key));
    assert_eq!(disk.slept, vec![300]);
}

#[test]
fn existing_key_needs_no_public_file() {
    let mut disk = Disk::new();
    disk.put(PRIVATE_KEY_PATH, SAMPLE_KEY);
    disk.read_only = true;
    assert_eq!(disk.gen_sk(0).unwrap().0, SAMPLE_PUBLIC_KEY);
    assert!(!disk.files.contains_key(&PUBLIC_KEY_PATH));
    assert_eq!(disk.write(PUBLIC_KEY_PATH, "pk", false), PublicKeyStage::Skipped);
    assert_eq!(
        disk.write(PUBLIC_KEY_PATH, "pk", true),
        PublicKeyStage::Failed(PublicKeyError::CreateTemporary)
    );
    let mut empty = Disk::new();
    empty.read_only = true;
    assert_eq!(
        empty.gen_sk(0).unwrap_err(),
        KeyError::Create(PrivateKeyError::Create(PRIVATE_KEY_PATH))
    );
}

#[test]
fn public_key_is_checked_before_the_key_is_kept() {
    let mut disk = Disk::new();
    disk.links.insert(PUBLIC_KEY_PATH, 20);
    disk.put(20, "another");
    assert_eq!(disk.check(PUBLIC_KEY_PATH, "pk"), PublicKeyCheck::Failed(PublicKeyError::Mismatch(20)));
    assert_eq!(disk.check(PUBLIC_KEY_PATH, "another"), PublicKeyCheck::Present);
    assert_eq!(disk.check(21, "pk"), PublicKeyCheck::Missing(21));
    let error = disk.gen_sk(0).unwrap_err();
    assert_eq!(error, KeyError::PublicKey(PublicKeyError::Mismatch(20)));
    assert_eq!(error.path(), Some(20));
    assert_eq!(disk.files.len(), 1);
}

#[test]
fn faults_of_malformed_keys_are_told() {
    for (text, fault) in [
        ("no key", Some("Invalid byte 32, offset 2.")),
        ("AAAAA", Some("Encoded text cannot have a 6-bit remainder.")),
        ("AB", Some("Invalid last symbol 66, offset 1.")),
        ("A=AA", Some("Invalid byte 61, offset 1.")),
        ("AAAA", None),
    ] {
        let machine = gen_sk(0, false).step(Event::Done).step(Event::Text(text.to_string()));
        assert_eq!(machine.stage(), KeyStage::Failed(KeyError::Malformed));
        assert_eq!(machine.fault().as_deref(), fault);
        let story = KeyError::Malformed.story("", "");
        match fault {
            Some(fault) => assert_eq!(
                tell(&story, machine.fault().as_deref()),
                format!("Malformed private key: {}", fault)
            ),
            None => assert_eq!(tell(&story, None), "Malformed private key"),
        }
    }
    let machine = gen_sk(0, false).step(Event::Done).step(Event::Text(SAMPLE_KEY.to_string()));
    assert!(machine.fault().is_none());
}

#[test]
fn malformed_key_is_refused() {
    let mut disk = Disk::new();
    disk.put(PRIVATE_KEY_PATH, "no key");
    assert_eq!(disk.gen_sk(0).unwrap_err(), KeyError::Malformed);
    assert_eq!(disk.files.len(), 1);
    assert_eq!(disk.text(PRIVATE_KEY_PATH), "no key");
}

#[test]
fn permissions_are_settled() {
    for (mode, created, kept) in [
        (0o600, Permissions::Settled, Permissions::Settled),
        (0o400, Permissions::Settled, Permissions::Settled),
        (0, Permissions::Settled, Permissions::Settled),
        (0o644, Permissions::Failed(PermissionError::UnsafeInitial(0o644)), Permissions::Settled),
        (0o4600, Permissions::Failed(PermissionError::UnsafeInitial(0o4600)), Permissions::Settled),
        (0o700, Permissions::Failed(PermissionError::UnsafeInitial(0o700)), Permissions::Settled),
    ] {
        let mut disk = Disk::new();
        disk.put(5, "");
        disk.files.get_mut(&5).unwrap().mode = REGULAR_FILE | mode;
        assert_eq!(disk.clone().settle(5, true), created);
        assert_eq!(disk.settle(5, false), kept);
        let private = mode & !0o600 == 0;
        assert_eq!(disk.files[&5].mode, REGULAR_FILE | if private { mode } else { 0o600 });
        disk.files.get_mut(&5).unwrap().mode = REGULAR_FILE | mode;
        disk.ignores_modes = true;
        let stubborn = if private {
            Permissions::Settled
        } else {
            Permissions::Failed(PermissionError::Unexpected(mode))
        };
        assert_eq!(disk.settle(5, false), stubborn);
    }
}

#[test]
fn files_without_modes_are_not_asked_for_them() {
    let mut disk = Disk::new();
    let mut machine = gen_sk(0, false);
    while let Some(action) = machine.action() {
        assert!(!matches!(
            action,
            Action::ReadMode | Action::SetMode(_) | Action::ReadTemporaryMode | Action::SetTemporaryMode(_)
        ));
        let key = machine.key_text().unwrap_or_default();
        let public_key = machine.public_key().unwrap_or_default();
        machine = machine.step(disk.answer(action, &key, &public_key));
    }
    assert_eq!(machine.stage(), KeyStage::Ready);
    let (public_key, _) = machine.outcome().unwrap().unwrap_or_else(|_| panic!("no key"));
    assert_eq!(disk.text(PUBLIC_KEY_PATH), public_key);
}

/// Breaks every request in turn, and looks at the files afterwards.
fn break_every_step(start: &Disk) -> Vec<KeyError> {
    let mut errors = Vec::new();
    for half in [false, true] {
        for step in 0..60 {
            let mut disk = start.clone();
            disk.broken_step = Some((step, half));
            let outcome = disk.gen_sk(7);
            assert!(disk.temporary.is_none());
            for (path, file) in &start.files {
                assert_eq!(disk.files[path].text, file.text);
            }
            assert_eq!(disk.links, start.links);
            for (path, file) in &disk.files {
                if start.files.contains_key(path) {
                    continue;
                }
                if file.text.len() == 88 || disk.key_file == Some(*path) {
                    assert_eq!(file.mode & 0o7777, 0o600);
                } else {
                    assert_eq!(file.text.len(), 44);
                }
            }
            match outcome {
                Ok((public_key, key)) => {
                    let path = disk.target(PRIVATE_KEY_PATH).unwrap();
                    assert_eq!(read_key(disk.text(path)).as_bytes(), key.as_slice());
                    assert_eq!(SecretKey::from_slice(&key).unwrap().public_key(), public_key);
                }
                Err(error) => {
                    if let KeyError::Create(_) = error {
                        assert_eq!(disk.files.len(), start.files.len());
                    }
                    if !errors.contains(&error) {
                        errors.push(error);
                    }
                }
            }
            // What is left behind does not stand in the way.
            disk.broken_step = None;
            assert!(disk.gen_sk(0).is_ok());
        }
    }
    errors
}

#[test]
fn broken_requests_for_a_new_key_do_no_harm() {
    let mut disk = Disk::new();
    disk.umask = 0o777;
    disk.put(30, "something else");
    disk.links.insert(PRIVATE_KEY_PATH, KEY_ALIAS);
    disk.links.insert(PUBLIC_KEY_PATH, 12);
    let errors = break_every_step(&disk);
    for error in [
        KeyError::Open,
        KeyError::PublicKey(PublicKeyError::Resolve(ResolveError::Inspect(PUBLIC_KEY_PATH))),
        KeyError::PublicKey(PublicKeyError::Resolve(ResolveError::ReadLink(PUBLIC_KEY_PATH))),
        KeyError::PublicKey(PublicKeyError::Resolve(ResolveError::Inspect(12))),
        KeyError::PublicKey(PublicKeyError::Read(12)),
        KeyError::Create(PrivateKeyError::Resolve(ResolveError::Inspect(PRIVATE_KEY_PATH))),
        KeyError::Create(PrivateKeyError::Resolve(ResolveError::ReadLink(PRIVATE_KEY_PATH))),
        KeyError::Create(PrivateKeyError::Create(KEY_ALIAS)),
        KeyError::Create(PrivateKeyError::NewFile(NewFileError::Permissions(PermissionError::Read))),
        KeyError::Create(PrivateKeyError::NewFile(NewFileError::Permissions(PermissionError::Restrict))),
        KeyError::Create(PrivateKeyError::NewFile(NewFileError::Write)),
        KeyError::PublicKey(PublicKeyError::CreateTemporary),
        KeyError::PublicKey(PublicKeyError::ReadTemporaryMode),
        KeyError::PublicKey(PublicKeyError::SetTemporaryMode),
        KeyError::PublicKey(PublicKeyError::WriteTemporary),
        KeyError::PublicKey(PublicKeyError::SyncTemporary),
        KeyError::PublicKey(PublicKeyError::Publish),
    ] {
        assert!(errors.contains(&error), "{:?}", error);
    }
}

#[test]
fn broken_requests_for_an_existing_key_do_no_harm() {
    let mut disk = Disk::new();
    disk.put(PRIVATE_KEY_PATH, SAMPLE_KEY);
    let errors = break_every_step(&disk);
    for error in [
        KeyError::Open,
        KeyError::Permissions(PermissionError::Read),
        KeyError::Permissions(PermissionError::Restrict),
        KeyError::Read,
        KeyError::PublicKey(PublicKeyError::WriteTemporary),
    ] {
        assert!(errors.contains(&error), "{:?}", error);
    }
    assert!(!errors.contains(&KeyError::PublicKey(PublicKeyError::CreateTemporary)));
}

#[test]
fn unremovable_file_is_told() {
    let step = create_private_key_file(3, true)
        .step(&Event::NotFound)
        .step(&Event::Done)
        .step(&Event::Mode(REGULAR_FILE | 0o640));
    assert_eq!(step.action(), Some(Action::Remove(3)));
    let reason = NewFileError::Permissions(PermissionError::UnsafeInitial(0o640));
    assert_eq!(
        step.step(&Event::Failed).stage,
        PrivateKeyStage::Failed(PrivateKeyError::Remove(3, reason))
    );
    assert_eq!(
        step.step(&Event::Done).stage,
        PrivateKeyStage::Failed(PrivateKeyError::NewFile(reason))
    );
    assert_eq!(tell(&reason.story(), None), "Unsafe initial private key permissions: 0640");
    let error = KeyError::Create(PrivateKeyError::Remove(3, reason));
    assert_eq!(error.path(), Some(3));
    assert_eq!(
        tell(&error.story("key", "Unsafe initial private key permissions: 0640"), Some("denied")),
        "Failed to create private key file: Failed to remove key after Unsafe initial private key permissions: 0640: denied"
    );
}

#[test]
fn publication_yields_to_what_is_there() {
    let mut disk = Disk::new();
    let pending = disk.prepare("pk");
    assert_eq!(disk.publish(pending, PUBLIC_KEY_PATH, "pk"), PublicKeyPublish::Published);
    assert_eq!(disk.text(PUBLIC_KEY_PATH), "pk");
    let text = "pk".to_string();
    let in_the_way = publish_public_key(7).step(&Event::AlreadyExists, &text);
    assert_eq!(in_the_way.action(), Some(Action::Inspect(7)));
    let gone = in_the_way.step(&Event::NotFound, &text).step(&Event::NotFound, &text);
    assert_eq!(gone.action(), Some(Action::DiscardTemporary));
    assert_eq!(
        gone.step(&Event::Done, &text),
        PublicKeyPublish::Failed(PublicKeyError::Disappeared)
    );
    let same = in_the_way.step(&Event::Done, &text).step(&Event::Text(" pk ".to_string()), &text);
    assert_eq!(same.action(), Some(Action::DiscardTemporary));
    // That the temporary file stays makes no difference.
    assert_eq!(same.step(&Event::Failed, &text), PublicKeyPublish::Published);
}

#[test]
fn key_is_drawn_where_there_is_none() {
    let drawn = read_key(SAMPLE_KEY);
    let machine = gen_sk(0, true);
    assert!(machine.key_text().is_none() && machine.public_key().is_none());
    let machine = machine.step_with(Event::NotFound, drawn);
    assert_eq!(machine.key_text().unwrap(), SAMPLE_KEY);
    assert_eq!(machine.public_key().unwrap(), SAMPLE_PUBLIC_KEY);
    assert_eq!(machine.action(), Some(Action::Inspect(PUBLIC_KEY_PATH)));
    let one = gen_sk(0, true).step(Event::NotFound);
    let other = gen_sk(0, true).step(Event::NotFound);
    assert_eq!(one.action(), Some(Action::Inspect(PUBLIC_KEY_PATH)));
    assert_ne!(one.key_text().unwrap(), other.key_text().unwrap());
    // Where there is a key file, no key is drawn.
    let machine = gen_sk(0, true).step_with(Event::Failed, read_key(SAMPLE_KEY));
    assert_eq!(machine.stage(), KeyStage::Failed(KeyError::Open));
    assert!(machine.key_text().is_none());
}

#[test]
fn drawn_key_outlives_a_failure_over_its_public_key() {
    for step in 0..60 {
        let mut disk = Disk::new();
        disk.broken_step = Some((step, false));
        let outcome = disk.gen_sk(0);
        disk.broken_step = None;
        if let Err(KeyError::PublicKey(_)) = outcome {
            let kept = disk.files.get(&PRIVATE_KEY_PATH).map(|file| file.text.clone());
            match kept {
                Some(text) => {
                    let (_, key) = disk.gen_sk(9).unwrap();
                    assert_eq!(read_key(&text).as_bytes(), key.as_slice());
                    assert_eq!(disk.text(PRIVATE_KEY_PATH), text);
                }
                None => assert!(disk.files.is_empty()),
            }
        }
    }
}

#[test]
fn running_procedure_has_no_outcome() {
    assert!(gen_sk(0, true).outcome().is_none());
}

#[test]
fn permissions_are_written_in_octal() {
    assert_eq!(write_octal(0), "0000");
    assert_eq!(write_octal(0o7), "0007");
    assert_eq!(write_octal(0o644), "0644");
    assert_eq!(write_octal(0o7777), "7777");
    assert_eq!(write_octal(0o100644), "100644");
    assert_eq!(write_octal(u32::MAX), format!("{:04o}", u32::MAX));
}

#[test]
fn errors_are_told() {
    let resolve = ResolveError::TooManySymlinks(4);
    for (error, text) in [
        (KeyError::Open, "Failed to open private key: io"),
        (KeyError::Permissions(PermissionError::Read), "io"),
        (KeyError::Permissions(PermissionError::UnsafeInitial(0o644)), "Unsafe initial private key permissions: 0644"),
        (KeyError::Permissions(PermissionError::Restrict), "Failed to set private key permissions to 0600: io"),
        (KeyError::Permissions(PermissionError::Unexpected(0o640)), "Private key permissions are 0640, expected 0600"),
        (KeyError::Read, "Failed to read private key: io"),
        (KeyError::Malformed, "Malformed private key"),
        (KeyError::PublicKey(PublicKeyError::Resolve(resolve)), "Failed to resolve public key path: Too many key symlinks (limit: 40): the-path"),
        (KeyError::PublicKey(PublicKeyError::Resolve(ResolveError::Inspect(4))), "Failed to resolve public key path: io"),
        (KeyError::PublicKey(PublicKeyError::Resolve(ResolveError::ReadLink(4))), "Failed to resolve public key path: io"),
        (KeyError::PublicKey(PublicKeyError::Read(4)), "Failed to read public key file: io"),
        (KeyError::PublicKey(PublicKeyError::Mismatch(4)), "Public key in the-path does not match private key in id_ed25519"),
        (KeyError::PublicKey(PublicKeyError::CreateTemporary), "Failed to create public key file: io"),
        (KeyError::PublicKey(PublicKeyError::ReadTemporaryMode), "io"),
        (KeyError::PublicKey(PublicKeyError::SetTemporaryMode), "Failed to set public key owner permissions: io"),
        (KeyError::PublicKey(PublicKeyError::WriteTemporary), "Failed to write public key: io"),
        (KeyError::PublicKey(PublicKeyError::SyncTemporary), "Failed to sync public key: io"),
        (KeyError::PublicKey(PublicKeyError::Publish), "Failed to publish public key file: io"),
        (KeyError::PublicKey(PublicKeyError::Disappeared), "Public key disappeared during publication"),
        (KeyError::Create(PrivateKeyError::Resolve(resolve)), "Failed to create private key file: Too many key symlinks (limit: 40): the-path"),
        (KeyError::Create(PrivateKeyError::Resolve(ResolveError::Inspect(4))), "Failed to create private key file: io"),
        (KeyError::Create(PrivateKeyError::Create(4)), "Failed to create private key file: io"),
        (KeyError::Create(PrivateKeyError::NewFile(NewFileError::Write)), "Failed to create private key file: Failed to write private key: io"),
        (KeyError::Create(PrivateKeyError::Remove(4, NewFileError::Write)), "Failed to create private key file: Failed to remove the-path after the-reason: io"),
    ] {
        assert_eq!(told(&error), text);
    }
    assert!(NewFileError::Write.has_reason());
    assert!(!NewFileError::Permissions(PermissionError::Unexpected(1)).has_reason());
    assert_eq!(tell(&Vec::new(), None), "");
}

#[test]
fn temporary_names_are_new() {
    assert_eq!(temporary_name("1-2"), ".id_ed25519.pub.1-2");
    let first = new_temporary_name();
    let second = new_temporary_name();
    assert_ne!(first, second);
    for name in [first, second] {
        let id = name.strip_prefix(".id_ed25519.pub.").unwrap();
        let groups: Vec<usize> = id.split('-').map(|group| group.len()).collect();
        assert_eq!(groups, vec![8, 4, 4, 4, 12]);
        assert!(id.chars().all(|c| c == '-' || c.is_ascii_digit() || ('a'..='f').contains(&c)));
        assert_eq!(id.chars().nth(14), Some('4'));
    }
}

#[test]
fn links_lead_on_from_their_directory() {
    for (link, target, path) in [
        ("id_ed25519", "key-alias", "key-alias"),
        ("keys/id_ed25519", "key-alias", "keys/key-alias"),
        ("keys/id_ed25519", "../key", "keys/../key"),
        ("keys/id_ed25519", "/etc/key", "/etc/key"),
        ("/keys/id_ed25519", "a/b", "/keys/a/b"),
    ] {
        assert_eq!(link_target(&PathBuf::from(link), &PathBuf::from(target)), PathBuf::from(path));
    }
}
