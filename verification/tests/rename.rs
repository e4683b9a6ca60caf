use jamoa::normalizer::should_skip;
use jamoa::rename::{
    start_with, temp_name_of, try_normalize, Outcome, Place, RenameError, RenameJob, RenameStep,
    Reply, Request,
};
use unicode_normalization::UnicodeNormalization;

fn nfd(s: &str) -> String {
    s.nfd().collect()
}

fn nfc(s: &str) -> String {
    s.nfc().collect()
}

/// How a directory treats names.
#[derive(Clone, Copy, PartialEq)]
enum Kind {
    /// Names lead to files exactly as they are stored.
    Exact,
    /// All forms of a name lead to the same file.
    Folding,
    /// All forms of a name lead to the same file, and names are stored decomposed.
    Decomposing,
}

struct Dir {
    entries: Vec<(String, u32)>,
    kind: Kind,
    given: String,
    at: usize,
    refuse_rename: Option<usize>,
    renames: usize,
}

impl Dir {
    fn new(kind: Kind, names: &[&str], given: &str) -> Dir {
        let entries = names
            .iter()
            .enumerate()
            .map(|(i, n)| (n.to_string(), i as u32))
            .collect();
        Dir { entries, kind, given: given.to_string(), at: 0, refuse_rename: None, renames: 0 }
    }

    fn find(&self, name: &str) -> Option<usize> {
        self.entries.iter().position(|(n, _)| match self.kind {
            Kind::Exact => n == name,
            _ => nfc(n) == nfc(name),
        })
    }

    fn place(&self, p: &Place) -> String {
        match p {
            Place::Given => self.given.clone(),
            Place::Named(n) => n.clone(),
        }
    }

    fn stored(&self) -> Reply<String> {
        match self.entries.get(self.at) {
            Some((n, _)) => {
                let id = self.entries[self.at].1;
                let same = self.find(&self.given).map(|i| self.entries[i].1 == id);
                Reply::Stored(Some(n.clone()), same)
            }
            None => Reply::ListEnd,
        }
    }

    fn listed(&self) -> Reply<String> {
        match self.entries.get(self.at) {
            Some((n, _)) => Reply::Listed(Some(n.clone())),
            None => Reply::ListEnd,
        }
    }

    fn answer(&mut self, request: Request) -> Reply<String> {
        match request {
            Request::Probe => Reply::Present(self.find(&self.given).is_some()),
            Request::ListStored => {
                self.at = 0;
                self.stored()
            }
            Request::NextStored => {
                self.at += 1;
                self.stored()
            }
            Request::Compare(p, n) => {
                let a = self.find(&self.place(&p));
                let b = self.find(&n);
                Reply::Same(match (a, b) {
                    (Some(a), Some(b)) => Some(self.entries[a].1 == self.entries[b].1),
                    _ => None,
                })
            }
            Request::Exists(n) => Reply::Exists(self.find(&n).is_some()),
            Request::Rename(from, to) => {
                self.renames += 1;
                if self.refuse_rename == Some(self.renames) {
                    return Reply::Renamed(Err("refused".to_string()));
                }
                let i = self.find(&self.place(&from)).unwrap();
                let to = self.place(&to);
                match self.find(&to) {
                    Some(j) if j == i => {}
                    other => {
                        self.entries[i].0 =
                            if self.kind == Kind::Decomposing { nfd(&to) } else { to };
                        if let Some(j) = other {
                            self.entries.remove(j);
                        }
                    }
                }
                Reply::Renamed(Ok(()))
            }
            Request::ListNames => {
                self.at = 0;
                self.listed()
            }
            Request::NextName => {
                self.at += 1;
                self.listed()
            }
        }
    }

    fn run(&mut self) -> Outcome<String> {
        let given = self.given.clone();
        let mut step: RenameStep<String> = try_normalize(Some(&given), true, 77);
        loop {
            match step {
                RenameStep::Finish(outcome) => return outcome,
                RenameStep::Ask(job, request) => {
                    let reply = self.answer(request);
                    step = job.resume(reply);
                }
            }
        }
    }

    fn names(&self) -> Vec<&str> {
        self.entries.iter().map(|(n, _)| n.as_str()).collect()
    }
}

fn renamed(outcome: Outcome<String>) -> (String, String) {
    match outcome {
        Ok(Some(pair)) => pair,
        _ => panic!("no rename"),
    }
}

fn asked(step: RenameStep<String>) -> (RenameJob<String>, Request) {
    match step {
        RenameStep::Ask(job, request) => (job, request),
        RenameStep::Finish(_) => panic!("finished"),
    }
}

#[test]
fn renames_decomposed_file() {
    let old = nfd("테스트 파일.txt");
    let mut dir = Dir::new(Kind::Exact, &["다른.txt", &old, "a"], &old);
    let (from, to) = renamed(dir.run());
    assert_eq!(from, old);
    assert_eq!(to, "테스트 파일.txt");
    assert_eq!(dir.names(), vec!["다른.txt", "테스트 파일.txt", "a"]);
    assert_eq!(dir.renames, 1);
}

#[test]
fn composed_file_is_left_alone() {
    let mut dir = Dir::new(Kind::Exact, &["정상 파일.txt"], "정상 파일.txt");
    assert!(matches!(dir.run(), Ok(None)));
    assert_eq!(dir.renames, 0);
}

#[test]
fn hidden_and_temporary_files_are_left_alone() {
    for name in [".숨김", "~$문서.docx", "영화.part"] {
        let old = nfd(name);
        let mut dir = Dir::new(Kind::Exact, &[&old], &old);
        assert!(matches!(dir.run(), Ok(None)));
        assert_eq!(dir.names(), vec![old.as_str()]);
    }
}

#[test]
fn taken_names_are_avoided() {
    let old = nfd("이름.txt");
    let mut dir = Dir::new(Kind::Exact, &["이름.txt", "이름 (1).txt", &old], &old);
    assert_eq!(renamed(dir.run()).1, "이름 (2).txt");
    assert_eq!(dir.names(), vec!["이름.txt", "이름 (1).txt", "이름 (2).txt"]);
}

#[test]
fn the_last_candidate_is_not_numbered() {
    let old = nfd("이름.txt");
    let mut names = vec!["이름.txt".to_string(), old.clone()];
    for i in 1..1000 {
        names.push(format!("이름 ({i}).txt"));
    }
    let refs: Vec<&str> = names.iter().map(|n| n.as_str()).collect();
    let mut dir = Dir::new(Kind::Exact, &refs, &old);
    assert_eq!(renamed(dir.run()).1, "이름 (dup).txt");
    assert_eq!(dir.entries.len(), 1001);
}

#[test]
fn no_file_is_replaced_when_every_name_is_taken() {
    let old = nfd("이름.txt");
    let mut names = vec!["이름.txt".to_string(), old.clone(), "이름 (dup).txt".to_string()];
    for i in 1..1000 {
        names.push(format!("이름 ({i}).txt"));
    }
    let refs: Vec<&str> = names.iter().map(|n| n.as_str()).collect();
    let mut dir = Dir::new(Kind::Exact, &refs, &old);
    assert!(matches!(dir.run(), Err(RenameError::NoFreeName)));
    assert_eq!(dir.renames, 0);
    assert_eq!(dir.names(), refs);
}

/// Runs a job for each name that is stored, and tells how many files were renamed.
fn scan(dir: &mut Dir) -> usize {
    let names: Vec<String> = dir.entries.iter().map(|(n, _)| n.clone()).collect();
    let mut count = 0;
    for name in names {
        dir.given = name;
        if matches!(dir.run(), Ok(Some(_))) {
            count += 1;
        }
    }
    count
}

#[test]
fn second_scan_renames_nothing() {
    let (a, b, hidden) = (nfd("가.txt"), nfd("나.txt"), nfd(".다"));
    let names = ["가.txt", a.as_str(), "x", b.as_str(), hidden.as_str()];
    let mut dir = Dir::new(Kind::Exact, &names, "");
    assert_eq!(scan(&mut dir), 2);
    let after = vec!["가.txt", "가 (1).txt", "x", "나.txt", hidden.as_str()];
    assert_eq!(dir.names(), after);
    assert_eq!(scan(&mut dir), 0);
    assert_eq!(dir.names(), after);

    let mut dir = Dir::new(Kind::Folding, &names[1..], "");
    assert_eq!(scan(&mut dir), 2);
    assert_eq!(dir.names(), vec!["가.txt", "x", "나.txt", hidden.as_str()]);
    assert_eq!(scan(&mut dir), 0);

    let mut dir = Dir::new(Kind::Folding, &[a.as_str(), ".nfc-tmp-77", b.as_str()], "");
    assert_eq!(scan(&mut dir), 2);
    assert_eq!(dir.names(), vec!["가.txt", "나.txt"]);
    assert_eq!(scan(&mut dir), 0);
}

#[test]
fn folding_directory_takes_two_renames() {
    let old = nfd("루프 테스트.txt");
    let mut dir = Dir::new(Kind::Folding, &["a", &old], &old);
    assert_eq!(renamed(dir.run()), (old.clone(), "루프 테스트.txt".to_string()));
    assert_eq!(dir.renames, 2);
    assert_eq!(dir.names(), vec!["a", "루프 테스트.txt"]);
    // The old path still leads to the file, but there is nothing left to do.
    assert!(matches!(dir.run(), Ok(None)));
    assert_eq!(dir.renames, 2);
}

#[test]
fn file_under_the_temporary_name_gives_way() {
    let old = nfd("이름.txt");
    for names in [
        [".nfc-tmp-77", "a", old.as_str(), "b"],
        ["a", old.as_str(), "b", ".nfc-tmp-77"],
    ] {
        let mut dir = Dir::new(Kind::Folding, &names, &old);
        assert_eq!(renamed(dir.run()), (old.clone(), "이름.txt".to_string()));
        assert_eq!(dir.names(), vec!["a", "이름.txt", "b"]);
        assert!(matches!(dir.run(), Ok(None)));
        // Where the second rename fails, the other file is gone all the same.
        let mut dir = Dir::new(Kind::Folding, &names, &old);
        dir.refuse_rename = Some(2);
        assert!(matches!(dir.run(), Err(RenameError::Io(_))));
        assert_eq!(dir.names(), vec!["a", old.as_str(), "b"]);
    }
}

#[test]
fn links_to_one_file_take_two_renames() {
    let old = nfd("이름.txt");
    let mut dir = Dir::new(Kind::Exact, &[&old, "이름.txt"], &old);
    dir.entries[1].1 = dir.entries[0].1;
    assert_eq!(renamed(dir.run()).1, "이름.txt");
    assert_eq!(dir.renames, 2);
}

#[test]
fn another_form_of_the_name_leads_to_the_stored_one() {
    let stored = "e\u{301}\u{323}.txt";
    let given = "e\u{323}\u{301}.txt";
    let mut dir = Dir::new(Kind::Folding, &[stored], given);
    assert_eq!(renamed(dir.run()), (stored.to_string(), nfc(stored)));
    assert_eq!(dir.names(), vec![nfc(stored).as_str()]);
}

#[test]
fn decomposing_directory_is_reported() {
    let old = nfd("이름.txt");
    let mut dir = Dir::new(Kind::Decomposing, &[&old], &old);
    assert!(matches!(dir.run(), Err(RenameError::NotPreserved)));
    assert_eq!(dir.names(), vec![old.as_str()]);
}

#[test]
fn failed_second_rename_is_undone() {
    let old = nfd("이름.txt");
    let mut dir = Dir::new(Kind::Folding, &[&old], &old);
    dir.refuse_rename = Some(2);
    assert!(matches!(dir.run(), Err(RenameError::Io(e)) if e == "refused"));
    assert_eq!(dir.names(), vec![old.as_str()]);
    assert_eq!(dir.renames, 3);
}

#[test]
fn refused_rename_is_reported() {
    for kind in [Kind::Exact, Kind::Folding] {
        let old = nfd("이름.txt");
        let mut dir = Dir::new(kind, &[&old], &old);
        dir.refuse_rename = Some(1);
        assert!(matches!(dir.run(), Err(RenameError::Io(_))));
        assert_eq!(dir.names(), vec![old.as_str()]);
    }
}

#[test]
fn vanished_file_is_given_up() {
    let mut dir = Dir::new(Kind::Exact, &["a"], &nfd("이름.txt"));
    assert!(matches!(dir.run(), Ok(None)));
    assert_eq!(dir.names(), vec!["a"]);
}

#[test]
fn path_without_text_name_is_given_up() {
    let step: RenameStep<String> = try_normalize(None, true, 1);
    assert!(matches!(step, RenameStep::Finish(Ok(None))));
}

#[test]
fn path_without_parent_is_an_error() {
    let (job, request) = asked(try_normalize(Some(&nfd("이름")), false, 1));
    assert!(matches!(request, Request::Probe));
    assert!(matches!(
        job.resume(Reply::Present(true)),
        RenameStep::Finish(Err(RenameError::NoParent))
    ));
}

#[test]
fn failed_listings_are_reported() {
    let (job, _) = asked(try_normalize(Some(&nfd("이름")), true, 1));
    let (job, request) = asked(job.resume(Reply::Present(true)));
    assert!(matches!(request, Request::ListStored));
    assert!(matches!(
        job.resume(Reply::ListFailed("no".to_string())),
        RenameStep::Finish(Err(RenameError::Io(e))) if e == "no"
    ));
}

#[test]
fn temporary_name_holds_the_process_id() {
    assert_eq!(temp_name_of(0), ".nfc-tmp-0");
    assert_eq!(temp_name_of(4294967295), ".nfc-tmp-4294967295");
    assert!(should_skip(&temp_name_of(77)));
}

#[test]
fn job_follows_the_composed_form_it_is_given() {
    let (job, _) = asked(start_with("abc", "xyz".to_string(), true, 5));
    let (job, _) = asked(job.resume(Reply::Present(true)));
    let (job, request) = asked(job.locate_with("abd".to_string(), "uvw".to_string()));
    match request {
        Request::Compare(Place::Named(a), b) => {
            assert_eq!(a, "abd");
            assert_eq!(b, "uvw");
        }
        _ => panic!("another request"),
    }
    let (_, request) = asked(job.resume(Reply::Same(Some(true))));
    match request {
        Request::Rename(Place::Named(a), Place::Named(b)) => {
            assert_eq!(a, "abd");
            assert_eq!(b, ".nfc-tmp-5");
        }
        _ => panic!("another request"),
    }
    let same: RenameStep<String> = start_with("abc", "abc".to_string(), true, 5);
    assert!(matches!(same, RenameStep::Finish(Ok(None))));
}

#[test]
fn entry_that_cannot_be_compared_is_passed_over() {
    let (job, _) = asked(try_normalize(Some(&nfd("이름")), true, 1));
    let (job, _) = asked(job.resume(Reply::Present(true)));
    let (job, request) = asked(job.resume(Reply::Stored(Some("a".to_string()), None)));
    assert!(matches!(request, Request::NextStored));
    // A stored name that is no text leaves the job as it is.
    let (_, request) = asked(job.resume(Reply::Stored(None, Some(true))));
    assert!(matches!(request, Request::Compare(Place::Given, t) if t == "이름"));
}
