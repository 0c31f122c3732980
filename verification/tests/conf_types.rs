use meli::conf::index_from_str;
use meli::conf::AccountConf;
use meli::conf::FileAccount;
use meli::conf::FileSettings;
use meli::conf::FolderConf;
use meli::conf::IndexStyle;
use meli::conf::Settings;
use meli::types::RateLimit;
use meli::types::UIMode;
use meli::utilities::Progress;
use meli::utilities::TextBox;

#[test]
fn index_style_words() {
    assert_eq!(index_from_str(b"Plain"), Some(IndexStyle::Plain));
    assert_eq!(index_from_str(b"threaded"), Some(IndexStyle::Threaded));
    assert_eq!(index_from_str(b"Compact"), Some(IndexStyle::Compact));
    assert_eq!(index_from_str(b"fancy"), None);
}

#[test]
fn settings_carry_accounts_over() {
    let fa = FileAccount {
        name: b"work".to_vec(),
        root_folder: b"/mail/work".to_vec(),
        format: b"Maildir".to_vec(),
        sent_folder: b"Sent".to_vec(),
        draft_folder: b"Drafts".to_vec(),
        identity: b"me@example.com".to_vec(),
        display_name: Some(b"Me".to_vec()),
        index: IndexStyle::Compact,
        folders: None,
    };
    let s = Settings::new(FileSettings { accounts: vec![fa] });
    assert_eq!(s.accounts.len(), 1);
    let ac: &AccountConf = &s.accounts[0];
    assert_eq!(ac.account().name, b"work".to_vec());
    assert_eq!(ac.account().root_folder, b"/mail/work".to_vec());
    assert_eq!(ac.conf().folder(), &b"/mail/work".to_vec());
    assert_eq!(ac.conf().index(), IndexStyle::Compact);
    let fc = FolderConf { rename: Some(b"INBOX".to_vec()), autoload: true, ignore: false };
    assert_eq!(fc.rename(), Some(&b"INBOX".to_vec()));
}

#[test]
fn rate_limit_ticks() {
    // 2 requests per 1000 ms: one every 500 ms.
    let mut rl = RateLimit::new(2, 1000, 0, 3);
    assert_eq!(rl.id(), 3);
    // the clock is far ahead of the pace: request passes
    assert!(rl.tick(10_000));
    // burst of requests at the same instant: the pace runs ahead of
    // the clock until the whole window is spent
    assert!(rl.tick(10_000));
    assert!(!rl.tick(10_000));
    assert!(rl.active);
    rl.reset(20_000);
    assert!(!rl.active);
    assert!(rl.tick(20_000));
}

#[test]
fn progress_accounting() {
    let mut p = Progress::new(b"parsing".to_vec(), 200);
    assert_eq!(p.percentage(), 0);
    p.add_work(50);
    assert_eq!(p.percentage(), 25);
    p.add_work(150);
    assert_eq!(p.percentage(), 100);
    p.add_work(50);
    assert_eq!(p.percentage(), 100);
    assert_eq!(p.description(), &b"parsing".to_vec());
    let empty = Progress::new(b"idle".to_vec(), 0);
    assert_eq!(empty.percentage(), 0);
    let tb = TextBox::new(b"hello".to_vec());
    assert_eq!(tb.content, b"hello".to_vec());
}

#[test]
fn mode_labels() {
    assert_eq!(UIMode::Normal.as_label(), "NORMAL");
    assert_eq!(UIMode::Execute.as_label(), "EX");
    assert_eq!(UIMode::Embed.as_label(), "EMBED");
}
