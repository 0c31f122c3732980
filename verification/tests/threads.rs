use meli::threads::base_subject;
use meli::threads::Threads;

#[test]
fn threading_by_references() {
    // A (<a>, no refs), B (<b>, refs <a>), C (<c>, refs <a> <b>):
    // one tree rooted at A, B under A, C under B.
    let mut t = Threads::new();
    let a = t.insert(1, 100, b"<a>", &vec![], None, b"one");
    let b = t.insert(2, 200, b"<b>", &vec![b"<a>".to_vec()], None, b"two");
    let c = t.insert(3, 300, b"<c>", &vec![b"<a>".to_vec(), b"<b>".to_vec()], None, b"three");
    let roots = t.roots();
    assert_eq!(roots, vec![a]);
    let walk = t.threads_group_iter(&roots);
    assert_eq!(walk, vec![(0, a, false), (1, b, false), (2, c, false)]);
    assert_eq!(t.thread_to_mail(a), Some(1));
    assert_eq!(t.thread_to_mail(b), Some(2));
    assert_eq!(t.thread_to_mail(c), Some(3));
}

#[test]
fn threading_phantom_parent() {
    // A message referencing an unseen parent hangs under a phantom.
    let mut t = Threads::new();
    let b = t.insert(2, 200, b"<b>", &vec![b"<missing>".to_vec()], None, b"s");
    let roots = t.roots();
    assert_eq!(roots.len(), 1);
    let phantom = roots[0];
    assert_ne!(phantom, b);
    assert_eq!(t.thread_to_mail(phantom), None);
    let walk = t.threads_group_iter(&roots);
    assert_eq!(walk, vec![(0, phantom, false), (1, b, false)]);
}

#[test]
fn subject_union_merges_roots() {
    // X "Meeting" and Y "Re: Meeting" share a base subject: after the
    // union pass they are one conversation with X, the older, as root.
    let mut t = Threads::new();
    let x = t.insert(1, 100, b"<x>", &vec![], None, b"Meeting");
    let y = t.insert(2, 200, b"<y>", &vec![], None, b"Re: Meeting");
    t.subject_union();
    let roots = t.roots();
    assert_eq!(roots, vec![x]);
    let gx = t.find_group(t.thread_nodes[x].group);
    let gy = t.find_group(t.thread_nodes[y].group);
    assert_eq!(gx, gy);
    assert_eq!(t.find_root(y), x);
    let walk = t.threads_group_iter(&roots);
    assert_eq!(walk, vec![(0, x, false), (1, y, false)]);
}

#[test]
fn no_cycle_from_mutual_references() {
    // Two messages referencing each other must not form a cycle: the
    // second link is refused and both stay reachable from one root.
    let mut t = Threads::new();
    let a = t.insert(1, 100, b"<a>", &vec![b"<b>".to_vec()], None, b"s");
    let b = t.insert(2, 200, b"<b>", &vec![b"<a>".to_vec()], None, b"s2");
    // walking up from either node terminates
    let ra = t.find_root(a);
    let rb = t.find_root(b);
    assert_eq!(ra, rb);
    let roots = t.roots();
    assert_eq!(roots.len(), 1);
}

#[test]
fn base_subject_strips_markers() {
    assert_eq!(base_subject(b"Re: Meeting"), b"Meeting".to_vec());
    assert_eq!(base_subject(b"  fwd: RE: [list] Plans"), b"Plans".to_vec());
    assert_eq!(base_subject(b"Plain subject"), b"Plain subject".to_vec());
    assert_eq!(base_subject(b"[tag-only]"), b"".to_vec());
}

#[test]
fn reparent_prefers_in_reply_to() {
    // B first hangs under A by references; its In-Reply-To names C,
    // which is no descendant of B, so the engine reparents it.
    let mut t = Threads::new();
    let _a = t.insert(1, 100, b"<a>", &vec![], None, b"one");
    let c = t.insert(3, 150, b"<c>", &vec![], None, b"three");
    let b = t.insert(2, 200, b"<b>", &vec![b"<a>".to_vec()], Some(b"<c>"), b"two");
    assert_eq!(t.find_root(b), c);
}
