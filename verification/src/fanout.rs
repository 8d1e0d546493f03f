//! The live-update fan-out registry: which users listen to which file, and
//! which of them a published message goes to.
//!
//! The network edge around this registry performs the actual delivery; the
//! registry only decides.  Subscribing registers a listener at the end of a
//! file's list, unsubscribing removes a user's first registration, and
//! routing answers with the file's listeners in registration order.

use vstd::prelude::*;

verus! {

/// One message published to the listeners of a file: the file and the
/// encoded payload.
#[derive(Debug)]
pub struct UpdateMessage {
    pub file: String,
    pub msg: Vec<u8>,
}

/// Mathematical view of a published message.
#[verifier::ext_equal]
pub ghost struct UpdateMessageView {
    pub file: Seq<char>,
    pub msg: Seq<u8>,
}

impl View for UpdateMessage {
    type V = UpdateMessageView;

    open spec fn view(&self) -> UpdateMessageView {
        UpdateMessageView { file: self.file@, msg: self.msg@ }
    }
}

impl DeepView for UpdateMessage {
    type V = UpdateMessageView;

    open spec fn deep_view(&self) -> UpdateMessageView {
        self.view()
    }
}

impl Clone for UpdateMessage {
    fn clone(&self) -> (res: Self)
        ensures
            res@ == self@,
    {
        let msg = self.msg.clone();
        proof {
            assert(msg@ =~= self.msg@);
        }
        UpdateMessage { file: self.file.clone(), msg }
    }
}

impl UpdateMessage {
    /// Wraps a payload for the listeners of `file`.
    pub fn new(file: String, msg: Vec<u8>) -> (r: UpdateMessage)
        ensures
            r@.file == file@,
            r@.msg == msg@,
    {
        UpdateMessage { file, msg }
    }
}

/// One listener registration.
pub struct Listener {
    pub file: String,
    pub user: String,
}

/// Mathematical view of a registration.
pub ghost struct ListenerView {
    pub file: Seq<char>,
    pub user: Seq<char>,
}

impl View for Listener {
    type V = ListenerView;

    open spec fn view(&self) -> ListenerView {
        ListenerView { file: self.file@, user: self.user@ }
    }
}

impl DeepView for Listener {
    type V = ListenerView;

    open spec fn deep_view(&self) -> ListenerView {
        self.view()
    }
}

/// The listeners of `file`, in registration order.
pub open spec fn listeners_of(rows: Seq<ListenerView>, file: Seq<char>) -> Seq<Seq<char>>
    decreases rows.len(),
{
    if rows.len() == 0 {
        Seq::empty()
    } else {
        let rest = listeners_of(rows.drop_first(), file);
        if rows.first().file == file {
            seq![rows.first().user] + rest
        } else {
            rest
        }
    }
}

/// The fan-out registry.
pub struct Registry {
    rows: Vec<Listener>,
}

impl Registry {
    /// The users listening to `file`, in registration order.
    pub closed spec fn listeners(self, file: Seq<char>) -> Seq<Seq<char>> {
        listeners_of(self.rows.deep_view(), file)
    }

    /// An empty registry.
    pub fn new() -> (r: Registry)
        ensures
            forall|f: Seq<char>| #[trigger] r.listeners(f) == Seq::<Seq<char>>::empty(),
    {
        let r = Registry { rows: Vec::new() };
        proof {
            assert(r.rows.deep_view() =~= Seq::<ListenerView>::empty());
        }
        r
    }

    /// Registers `user` as a listener of `file`, at the end of its list.
    pub fn subscribe(&mut self, file: &str, user: &str)
        ensures
            final(self).listeners(file@) == old(self).listeners(file@).push(user@),
            forall|f: Seq<char>|
                f != file@ ==> #[trigger] final(self).listeners(f) == old(self).listeners(f),
    {
        let ghost pre = self.rows.deep_view();
        self.rows.push(Listener { file: String::from_str(file), user: String::from_str(user) });
        proof {
            let rowv = ListenerView { file: file@, user: user@ };
            assert(self.rows.deep_view() =~= pre.push(rowv));
            assert forall|f: Seq<char>| true implies #[trigger] listeners_of(pre.push(rowv), f)
                == (if f == file@ {
                listeners_of(pre, f).push(user@)
            } else {
                listeners_of(pre, f)
            }) by {
                lemma_listeners_snoc(pre, rowv, f);
            }
        }
    }

    /// Removes the first registration of `user` on `file`, if any.
    pub fn unsubscribe(&mut self, file: &str, user: &str)
        ensures
            ({
                let before = old(self).listeners(file@);
                if before.contains(user@) {
                    final(self).listeners(file@) == before.remove(first_user_index(before, user@))
                } else {
                    final(self).listeners(file@) == before
                }
            }),
            forall|f: Seq<char>|
                f != file@ ==> #[trigger] final(self).listeners(f) == old(self).listeners(f),
    {
        let file_string = String::from_str(file);
        let user_string = String::from_str(user);
        let ghost pre = self.rows.deep_view();
        let mut i: usize = 0;
        while i < self.rows.len()
            invariant
                i <= self.rows.len(),
                pre == self.rows.deep_view(),
                pre == old(self).rows.deep_view(),
                file_string@ == file@,
                user_string@ == user@,
                forall|w: int|
                    0 <= w < i ==> !(pre[w].file == file@ && pre[w].user == user@),
            decreases self.rows.len() - i,
        {
            if self.rows[i].file == file_string && self.rows[i].user == user_string {
                self.rows.remove(i);
                proof {
                    assert(self.rows.deep_view() =~= pre.remove(i as int));
                    lemma_listeners_remove(pre, i as int, file@, user@);
                    assert forall|f: Seq<char>| f != file@ implies #[trigger] listeners_of(
                        pre.remove(i as int),
                        f,
                    ) == listeners_of(pre, f) by {
                        lemma_listeners_remove_other(pre, i as int, f);
                    }
                }
                return ;
            }
            i += 1;
        }
        proof {
            lemma_no_listener(pre, file@, user@);
        }
    }

    /// The listeners a message for `file` goes to, in order.
    pub fn route(&self, file: &str) -> (r: Vec<String>)
        ensures
            r.deep_view() == self.listeners(file@),
    {
        let file_string = String::from_str(file);
        let ghost d = self.rows.deep_view();
        let mut r: Vec<String> = Vec::new();
        let mut i: usize = 0;
        proof {
            assert(d.skip(0) =~= d);
            assert(r.deep_view() =~= Seq::<Seq<char>>::empty());
            assert(Seq::<Seq<char>>::empty() + listeners_of(d, file@) =~= listeners_of(d, file@));
        }
        while i < self.rows.len()
            invariant
                i <= self.rows.len(),
                d == self.rows.deep_view(),
                file_string@ == file@,
                listeners_of(d, file@) == r.deep_view() + listeners_of(d.skip(i as int), file@),
            decreases self.rows.len() - i,
        {
            proof {
                assert(d.skip(i as int).first() == d[i as int]);
                assert(d.skip(i as int).drop_first() =~= d.skip(i + 1));
            }
            let ghost before = r.deep_view();
            if self.rows[i].file == file_string {
                r.push(self.rows[i].user.clone());
                proof {
                    assert(r.deep_view() =~= before.push(d[i as int].user));
                    assert(before.push(d[i as int].user) =~= before + seq![d[i as int].user]);
                    vstd::seq_lib::lemma_concat_associative(
                        before,
                        seq![d[i as int].user],
                        listeners_of(d.skip(i + 1), file@),
                    );
                }
            }
            i += 1;
        }
        proof {
            assert(d.skip(self.rows@.len() as int).len() == 0);
            assert(listeners_of(d.skip(self.rows@.len() as int), file@) =~= Seq::<
                Seq<char>,
            >::empty());
            assert(r.deep_view() + Seq::<Seq<char>>::empty() =~= r.deep_view());
        }
        r
    }
}

/// The position of the first occurrence of `user` in a listener list.
pub open spec fn first_user_index(users: Seq<Seq<char>>, user: Seq<char>) -> int
    decreases users.len(),
{
    if users.len() == 0 {
        0
    } else if users.first() == user {
        0
    } else {
        1 + first_user_index(users.drop_first(), user)
    }
}

/// Appending one registration extends exactly its file's listener list.
proof fn lemma_listeners_snoc(rows: Seq<ListenerView>, row: ListenerView, f: Seq<char>)
    ensures
        listeners_of(rows.push(row), f) == (if row.file == f {
            listeners_of(rows, f).push(row.user)
        } else {
            listeners_of(rows, f)
        }),
    decreases rows.len(),
{
    if rows.len() == 0 {
        assert(rows.push(row).drop_first() =~= Seq::<ListenerView>::empty());
        assert(listeners_of(Seq::<ListenerView>::empty(), f) =~= Seq::<Seq<char>>::empty());
        if row.file == f {
            assert(listeners_of(rows.push(row), f) =~= seq![row.user]);
            assert(listeners_of(rows, f).push(row.user) =~= seq![row.user]);
        }
    } else {
        assert(rows.push(row).first() == rows.first());
        assert(rows.push(row).drop_first() =~= rows.drop_first().push(row));
        lemma_listeners_snoc(rows.drop_first(), row, f);
        if rows.first().file == f {
            if row.file == f {
                assert(seq![rows.first().user] + listeners_of(rows.drop_first(), f).push(row.user)
                    =~= (seq![rows.first().user] + listeners_of(rows.drop_first(), f)).push(
                    row.user,
                ));
            }
        }
    }
}

/// Removing the first matching registration removes the first occurrence of
/// the user from its file's list.
proof fn lemma_listeners_remove(rows: Seq<ListenerView>, i: int, f: Seq<char>, u: Seq<char>)
    requires
        0 <= i < rows.len(),
        rows[i].file == f,
        rows[i].user == u,
        forall|w: int| 0 <= w < i ==> !(rows[w].file == f && rows[w].user == u),
    ensures
        listeners_of(rows, f).contains(u),
        listeners_of(rows.remove(i), f) == listeners_of(rows, f).remove(
            first_user_index(listeners_of(rows, f), u),
        ),
    decreases rows.len(),
{
    if i == 0 {
        assert(rows.remove(0) =~= rows.drop_first());
        let l = listeners_of(rows, f);
        assert(l.first() == u);
        assert(l.contains(u)) by {
            assert(l[0] == u);
        }
        assert(first_user_index(l, u) == 0);
        assert(l.remove(0) =~= l.drop_first());
        assert(l.drop_first() =~= listeners_of(rows.drop_first(), f));
    } else {
        assert(rows.remove(i).first() == rows.first());
        assert(rows.remove(i).drop_first() =~= rows.drop_first().remove(i - 1));
        lemma_listeners_remove(rows.drop_first(), i - 1, f, u);
        let l = listeners_of(rows, f);
        let lrest = listeners_of(rows.drop_first(), f);
        if rows.first().file == f {
            assert(rows.first().user != u);
            assert(l == seq![rows.first().user] + lrest);
            assert(l.first() == rows.first().user);
            assert(lrest.contains(u));
            let w = choose|w: int| 0 <= w < lrest.len() && lrest[w] == u;
            assert(l[w + 1] == u);
            assert(l.contains(u));
            assert(l.drop_first() =~= lrest);
            assert(first_user_index(l, u) == 1 + first_user_index(lrest, u));
            assert(listeners_of(rows.remove(i), f) == seq![rows.first().user] + listeners_of(
                rows.drop_first().remove(i - 1),
                f,
            ));
            assert(listeners_of(rows.remove(i), f) =~= l.remove(first_user_index(l, u))) by {
                assert(0 <= first_user_index(lrest, u) < lrest.len()) by {
                    lemma_first_user_index_bounds(lrest, u);
                }
            }
        } else {
            assert(l == lrest);
            assert(listeners_of(rows.remove(i), f) == listeners_of(
                rows.drop_first().remove(i - 1),
                f,
            ));
        }
    }
}

/// The first occurrence of a contained user is a real position.
proof fn lemma_first_user_index_bounds(users: Seq<Seq<char>>, user: Seq<char>)
    requires
        users.contains(user),
    ensures
        0 <= first_user_index(users, user) < users.len(),
        users[first_user_index(users, user)] == user,
    decreases users.len(),
{
    if users.first() == user {
    } else {
        assert(users.drop_first().contains(user)) by {
            let w = choose|w: int| 0 <= w < users.len() && users[w] == user;
            assert(users.drop_first()[w - 1] == user);
        }
        lemma_first_user_index_bounds(users.drop_first(), user);
    }
}

/// Removing a registration of one file leaves other files' lists alone.
proof fn lemma_listeners_remove_other(rows: Seq<ListenerView>, i: int, f: Seq<char>)
    requires
        0 <= i < rows.len(),
        rows[i].file != f,
    ensures
        listeners_of(rows.remove(i), f) == listeners_of(rows, f),
    decreases rows.len(),
{
    if i == 0 {
        assert(rows.remove(0) =~= rows.drop_first());
    } else {
        assert(rows.remove(i).first() == rows.first());
        assert(rows.remove(i).drop_first() =~= rows.drop_first().remove(i - 1));
        lemma_listeners_remove_other(rows.drop_first(), i - 1, f);
    }
}

/// A user with no registration on a file is not in its listener list.
proof fn lemma_no_listener(rows: Seq<ListenerView>, f: Seq<char>, u: Seq<char>)
    requires
        forall|w: int| 0 <= w < rows.len() ==> !((#[trigger] rows[w]).file == f && rows[w].user == u),
    ensures
        !listeners_of(rows, f).contains(u),
    decreases rows.len(),
{
    if rows.len() > 0 {
        assert forall|w: int|
            0 <= w < rows.drop_first().len() implies !((#[trigger] rows.drop_first()[w]).file == f
            && rows.drop_first()[w].user == u) by {
            assert(rows.drop_first()[w] == rows[w + 1]);
        }
        lemma_no_listener(rows.drop_first(), f, u);
        let l = listeners_of(rows, f);
        if rows.first().file == f {
            assert(l == seq![rows.first().user] + listeners_of(rows.drop_first(), f));
            if l.contains(u) {
                let w = choose|w: int| 0 <= w < l.len() && l[w] == u;
                if w == 0 {
                    assert(rows.first().user == u);
                } else {
                    assert(listeners_of(rows.drop_first(), f)[w - 1] == u);
                }
            }
        }
    }
}

} // verus!
