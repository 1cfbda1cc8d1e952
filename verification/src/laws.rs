//! The laws the credential store obeys, stated over the same spec
//! functions its operations' contracts use and proved once and for all.

use vstd::prelude::*;

use crate::crypto::{hash_checks_cleanly, password_check};
use crate::store::{hashes_of, has_label, has_user_named, lemma_filter_keeps_bound, passwords_of,
    scan_outcome, toggled_users, user_for_name, verification_verdict, AuthenticationResult,
    Password, StoreError, User};

verus! {

/// How many passwords a user holds under one label.
pub open spec fn labeled_count(passwords: Seq<Password>, id: u128, label: Seq<char>) -> nat {
    passwords.filter(|q: Password| q.userid == id && q.label@ == label).len()
}

/// Appending one password record extends exactly its owner's hash list,
/// and no other user's.
pub proof fn lemma_hashes_of_push(passwords: Seq<Password>, p: Password, id: u128)
    ensures
        p.userid == id ==> hashes_of(passwords.push(p), id) == hashes_of(passwords, id).push(
            p.hash@,
        ),
        p.userid != id ==> hashes_of(passwords.push(p), id) == hashes_of(passwords, id),
{
    let pred = |q: Password| q.userid == id;
    passwords.lemma_filter_push(p, pred);
    let fi = passwords.filter(pred);
    let fi1 = passwords.push(p).filter(pred);
    assert(passwords_of(passwords.push(p), id) == fi1);
    assert(passwords_of(passwords, id) == fi);
    if p.userid == id {
        assert(fi1 == fi.push(p));
        let lm = fi1.map_values(|q: Password| q.hash@);
        let rm = fi.map_values(|q: Password| q.hash@).push(p.hash@);
        assert(lm.len() == rm.len());
        assert forall|k: int| 0 <= k < lm.len() implies #[trigger] lm[k] == rm[k] by {
            if k < lm.len() - 1 {
                assert(fi1[k] == fi[k]);
            } else {
                assert(fi1[k] == p);
            }
        }
        assert(lm =~~= rm);
        assert(hashes_of(passwords.push(p), id) == lm);
        assert(hashes_of(passwords, id).push(p.hash@) == rm);
    }
}

/// What a scan of stored hashes can say: it rejects the candidate as a
/// wrong password exactly when every hash checks cleanly and none
/// matches, it succeeds only when some hash matches, and it never
/// classifies the user.
pub proof fn lemma_scan_characterization(candidate: Seq<char>, hashes: Seq<Seq<char>>)
    ensures
        scan_outcome(candidate, hashes) == Ok::<AuthenticationResult, StoreError>(
            AuthenticationResult::IncorrectPassword,
        ) <==> (forall|k: int|
            0 <= k < hashes.len() ==> password_check(candidate, #[trigger] hashes[k]) == Some(
                false,
            )),
        scan_outcome(candidate, hashes) == Ok::<AuthenticationResult, StoreError>(
            AuthenticationResult::Success,
        ) ==> exists|k: int|
            0 <= k < hashes.len() && password_check(candidate, #[trigger] hashes[k]) == Some(true),
        scan_outcome(candidate, hashes) != Ok::<AuthenticationResult, StoreError>(
            AuthenticationResult::NoSuchUser,
        ),
        scan_outcome(candidate, hashes) != Ok::<AuthenticationResult, StoreError>(
            AuthenticationResult::LoginDisabled,
        ),
    decreases hashes.len(),
{
    if hashes.len() > 0 {
        let rest = hashes.drop_first();
        lemma_scan_characterization(candidate, rest);
        assert forall|k: int| 0 <= k < rest.len() implies #[trigger] rest[k] == hashes[k + 1] by {
        }
        match password_check(candidate, hashes[0]) {
            None => {
                assert(password_check(candidate, hashes[0]) != Some(false));
            },
            Some(true) => {
                assert(password_check(candidate, hashes[0]) == Some(true));
            },
            Some(false) => {
                if scan_outcome(candidate, rest) == Ok::<AuthenticationResult, StoreError>(
                    AuthenticationResult::IncorrectPassword,
                ) {
                    assert forall|k: int| 0 <= k < hashes.len() implies password_check(
                        candidate,
                        #[trigger] hashes[k],
                    ) == Some(false) by {
                        if k > 0 {
                            assert(rest[k - 1] == hashes[k]);
                        }
                    }
                } else {
                    assert(!(forall|k: int|
                        0 <= k < rest.len() ==> password_check(candidate, #[trigger] rest[k])
                            == Some(false)));
                    let k0 = choose|k: int|
                        0 <= k < rest.len() && password_check(candidate, #[trigger] rest[k])
                            != Some(false);
                    assert(password_check(candidate, hashes[k0 + 1]) != Some(false));
                }
                if scan_outcome(candidate, rest) == Ok::<AuthenticationResult, StoreError>(
                    AuthenticationResult::Success,
                ) {
                    let k1 = choose|k: int|
                        0 <= k < rest.len() && password_check(candidate, #[trigger] rest[k])
                            == Some(true);
                    assert(password_check(candidate, hashes[k1 + 1]) == Some(true));
                }
            },
        }
    }
}

/// An unknown username is always classified as `NoSuchUser`, never as a
/// wrong password; conversely that verdict only arises for unknown names.
pub proof fn lemma_unknown_user_verdict(
    users: Seq<User>,
    passwords: Seq<Password>,
    name: Seq<char>,
    candidate: Seq<char>,
)
    ensures
        verification_verdict(users, passwords, name, candidate) == Ok::<
            AuthenticationResult,
            StoreError,
        >(AuthenticationResult::NoSuchUser) <==> !has_user_named(users, name),
{
    if has_user_named(users, name) {
        let u = user_for_name(users, name)->0;
        if u.login_allowed {
            lemma_scan_characterization(candidate, hashes_of(passwords, u.id));
        }
    }
}

/// A verification verdict is drawn from one snapshot of the relations: it
/// reports success only when that same snapshot allows the login and holds
/// a stored password of that user whose hash the candidate matches, and it
/// reports a wrong password only for an existing, allowed user. No torn
/// state - an allowed flag beside an unmatched password set, or the
/// reverse - is observable.
pub proof fn lemma_verdict_snapshot(
    users: Seq<User>,
    passwords: Seq<Password>,
    name: Seq<char>,
    candidate: Seq<char>,
)
    ensures
        verification_verdict(users, passwords, name, candidate) == Ok::<
            AuthenticationResult,
            StoreError,
        >(AuthenticationResult::Success) ==> (user_for_name(users, name) matches Some(u)
            && u.login_allowed && exists|k: int|
            0 <= k < passwords.len() && (#[trigger] passwords[k]).userid == u.id && password_check(
                candidate,
                passwords[k].hash@,
            ) == Some(true)),
        verification_verdict(users, passwords, name, candidate) == Ok::<
            AuthenticationResult,
            StoreError,
        >(AuthenticationResult::IncorrectPassword) ==> (user_for_name(users, name) matches Some(u)
            && u.login_allowed),
        verification_verdict(users, passwords, name, candidate) == Ok::<
            AuthenticationResult,
            StoreError,
        >(AuthenticationResult::LoginDisabled) <==> (user_for_name(users, name) matches Some(u)
            && !u.login_allowed),
{
    broadcast use vstd::seq_lib::group_filter_ensures;

    if user_for_name(users, name) is Some {
        let u = user_for_name(users, name)->0;
        if u.login_allowed {
            lemma_scan_characterization(candidate, hashes_of(passwords, u.id));
            if verification_verdict(users, passwords, name, candidate) == Ok::<
                AuthenticationResult,
                StoreError,
            >(AuthenticationResult::Success) {
                let hs = hashes_of(passwords, u.id);
                let k = choose|k: int|
                    0 <= k < hs.len() && password_check(candidate, #[trigger] hs[k]) == Some(true);
                let fi = passwords_of(passwords, u.id);
                assert(hs == fi.map_values(|q: Password| q.hash@));
                assert(hs.len() == fi.len());
                let e = fi[k];
                assert(hs[k] == e.hash@);
                assert(fi.contains(e));
                passwords.lemma_filter_contains_rev(|q: Password| q.userid == u.id, e);
                let k2 = choose|k2: int| 0 <= k2 < passwords.len() && passwords[k2] == e;
                assert(passwords[k2].userid == u.id && password_check(
                    candidate,
                    passwords[k2].hash@,
                ) == Some(true));
            }
        }
    }
}

/// A fresh password verifies: when a user who may log in has a record
/// appended whose hash the secret matches, on a store whose hashes all
/// check cleanly (as `wf` guarantees of every store this library builds),
/// verifying that secret afterwards succeeds.
pub proof fn lemma_fresh_password_verifies(
    users: Seq<User>,
    passwords: Seq<Password>,
    name: Seq<char>,
    secret: Seq<char>,
    p: Password,
)
    requires
        user_for_name(users, name) matches Some(u) && u.login_allowed && u.id == p.userid,
        forall|j: int|
            0 <= j < passwords.len() ==> hash_checks_cleanly((#[trigger] passwords[j]).hash@),
        password_check(secret, p.hash@) == Some(true),
        secret.len() <= 0x3FFFFFFF,
    ensures
        verification_verdict(users, passwords.push(p), name, secret) == Ok::<
            AuthenticationResult,
            StoreError,
        >(AuthenticationResult::Success),
{
    let u = user_for_name(users, name)->0;
    lemma_hashes_of_push(passwords, p, u.id);
    let hs = hashes_of(passwords.push(p), u.id);
    let old_hs = hashes_of(passwords, u.id);
    assert(hs == old_hs.push(p.hash@));
    lemma_filter_keeps_bound(
        passwords,
        |q: Password| q.userid == u.id,
        |q: Password| hash_checks_cleanly(q.hash@),
    );
    let fi = passwords_of(passwords, u.id);
    assert forall|k: int| 0 <= k < hs.len() implies password_check(
        secret,
        #[trigger] hs[k],
    ) is Some by {
        if k < hs.len() - 1 {
            assert(hs[k] == old_hs[k]);
            assert(old_hs[k] == fi[k].hash@);
            assert(hash_checks_cleanly(fi[k].hash@));
            assert(password_check(secret, fi[k].hash@) is Some);
        } else {
            assert(hs[k] == p.hash@);
        }
    }
    lemma_scan_some_outcomes(secret, hs);
    lemma_scan_characterization(secret, hs);
    let v = scan_outcome(secret, hs);
    let a = v->Ok_0;
    assert(v == Ok::<AuthenticationResult, StoreError>(a));
    if a is IncorrectPassword {
        assert(password_check(secret, hs[hs.len() - 1]) == Some(false));
        assert(hs[hs.len() - 1] == p.hash@);
        assert(false);
    }
    assert(a is Success);
}

/// A scan over hashes that all check cleanly never reports corruption.
pub proof fn lemma_scan_some_outcomes(candidate: Seq<char>, hashes: Seq<Seq<char>>)
    requires
        forall|k: int|
            0 <= k < hashes.len() ==> password_check(candidate, #[trigger] hashes[k]) is Some,
    ensures
        scan_outcome(candidate, hashes) is Ok,
    decreases hashes.len(),
{
    if hashes.len() > 0 {
        assert forall|k: int| 0 <= k < hashes.drop_first().len() implies password_check(
            candidate,
            #[trigger] hashes.drop_first()[k],
        ) is Some by {
            assert(hashes.drop_first()[k] == hashes[k + 1]);
        }
        lemma_scan_some_outcomes(candidate, hashes.drop_first());
    }
}

/// Creating a second password under the same `(user, label)` pair
/// conflicts rather than overwriting: once one record carries the label,
/// the label is taken - so the store's contract forces the second call to
/// fail and change nothing - and the user's count of records under the
/// label stands at exactly one.
pub proof fn lemma_duplicate_label_conflicts(passwords: Seq<Password>, p: Password)
    requires
        !has_label(passwords, p.userid, p.label@),
    ensures
        has_label(passwords.push(p), p.userid, p.label@),
        labeled_count(passwords.push(p), p.userid, p.label@) == 1,
{
    let pushed = passwords.push(p);
    assert(pushed[pushed.len() - 1] == p);
    assert(has_label(pushed, p.userid, p.label@));
    let pred = |q: Password| q.userid == p.userid && q.label@ == p.label@;
    passwords.lemma_filter_push(p, pred);
    assert(passwords.all(|q: Password| !pred(q))) by {
        assert forall|k: int| 0 <= k < passwords.len() implies !pred(#[trigger] passwords[k]) by {
            if passwords[k].userid == p.userid && passwords[k].label@ == p.label@ {
                assert(has_label(passwords, p.userid, p.label@));
            }
        }
    }
    passwords.lemma_all_neg_filter_empty(pred);
    assert(pushed.filter(pred) == passwords.filter(pred).push(p));
}

/// Toggling a user's login flag flips verification for any candidate,
/// right or wrong: an allowed user becomes `LoginDisabled`, and a disabled
/// user's verdict returns to the scan of the same stored hashes. Toggling
/// twice restores the relation, and with it every verdict.
pub proof fn lemma_toggle_disables(
    users0: Seq<User>,
    users1: Seq<User>,
    passwords: Seq<Password>,
    name: Seq<char>,
    candidate: Seq<char>,
    id: u128,
)
    requires
        toggled_users(users0, users1, id),
        user_for_name(users0, name) matches Some(u) && u.id == id,
    ensures
        user_for_name(users0, name)->0.login_allowed ==> verification_verdict(
            users1,
            passwords,
            name,
            candidate,
        ) == Ok::<AuthenticationResult, StoreError>(AuthenticationResult::LoginDisabled),
        !user_for_name(users0, name)->0.login_allowed ==> verification_verdict(
            users1,
            passwords,
            name,
            candidate,
        ) == scan_outcome(candidate, hashes_of(passwords, id)),
    decreases users0.len(),
{
    let u = user_for_name(users0, name)->0;
    if users0.len() > 0 {
        if users0[0].username@ == name {
            assert(u == users0[0]);
            if users0[0].id == id {
                assert(users1[0] == (User { login_allowed: !users0[0].login_allowed, ..users0[0] }));
            } else {
                assert(users1[0] == users0[0]);
            }
            assert(user_for_name(users1, name) == Some(users1[0]));
        } else {
            assert(users1[0] == users0[0] || users1[0] == (User {
                login_allowed: !users0[0].login_allowed,
                ..users0[0]
            }));
            assert(users1[0].username@ != name);
            assert(toggled_users(users0.drop_first(), users1.drop_first(), id)) by {
                assert forall|i: int|
                    0 <= i < users0.drop_first().len() implies ((
                (#[trigger] users0.drop_first()[i]).id != id ==> users1.drop_first()[i]
                    == users0.drop_first()[i]) && (users0.drop_first()[i].id == id
                    ==> users1.drop_first()[i] == (User {
                    login_allowed: !users0.drop_first()[i].login_allowed,
                    ..users0.drop_first()[i]
                }))) by {
                    assert(users0.drop_first()[i] == users0[i + 1]);
                    assert(users1.drop_first()[i] == users1[i + 1]);
                }
            }
            lemma_toggle_disables(
                users0.drop_first(),
                users1.drop_first(),
                passwords,
                name,
                candidate,
                id,
            );
        }
    }
}

/// Two toggles of the same user leave the user relation exactly as it
/// was.
pub proof fn lemma_toggle_twice(users0: Seq<User>, users1: Seq<User>, users2: Seq<User>, id: u128)
    requires
        toggled_users(users0, users1, id),
        toggled_users(users1, users2, id),
    ensures
        users2 =~= users0,
{
    assert forall|i: int| 0 <= i < users0.len() implies #[trigger] users2[i] == users0[i] by {
        if users0[i].id == id {
            assert(users1[i] == (User { login_allowed: !users0[i].login_allowed, ..users0[i] }));
            assert(users1[i].id == id);
            assert(users2[i] == (User { login_allowed: !users1[i].login_allowed, ..users1[i] }));
        } else {
            assert(users1[i] == users0[i]);
            assert(users2[i] == users1[i]);
        }
    }
}

/// Removing passwords leaves verification rejecting any candidate that
/// matches none of the survivors, while a candidate matching a surviving
/// hash still succeeds - on a store whose hashes all check cleanly, as
/// `wf` guarantees.
pub proof fn lemma_removal_outcomes(
    users: Seq<User>,
    passwords: Seq<Password>,
    name: Seq<char>,
    candidate: Seq<char>,
)
    requires
        user_for_name(users, name) matches Some(u) && u.login_allowed,
        forall|j: int|
            0 <= j < passwords.len() ==> hash_checks_cleanly((#[trigger] passwords[j]).hash@),
        candidate.len() <= 0x3FFFFFFF,
    ensures
        (forall|k: int|
            0 <= k < hashes_of(passwords, user_for_name(users, name)->0.id).len()
                ==> password_check(
                candidate,
                #[trigger] hashes_of(passwords, user_for_name(users, name)->0.id)[k],
            ) == Some(false)) ==> verification_verdict(users, passwords, name, candidate) == Ok::<
            AuthenticationResult,
            StoreError,
        >(AuthenticationResult::IncorrectPassword),
        (exists|k: int|
            0 <= k < hashes_of(passwords, user_for_name(users, name)->0.id).len()
                && password_check(
                candidate,
                #[trigger] hashes_of(passwords, user_for_name(users, name)->0.id)[k],
            ) == Some(true)) ==> verification_verdict(users, passwords, name, candidate) == Ok::<
            AuthenticationResult,
            StoreError,
        >(AuthenticationResult::Success),
{
    let u = user_for_name(users, name)->0;
    let hs = hashes_of(passwords, u.id);
    lemma_filter_keeps_bound(
        passwords,
        |q: Password| q.userid == u.id,
        |q: Password| hash_checks_cleanly(q.hash@),
    );
    let fi = passwords_of(passwords, u.id);
    assert forall|k: int| 0 <= k < hs.len() implies password_check(
        candidate,
        #[trigger] hs[k],
    ) is Some by {
        assert(hs[k] == fi[k].hash@);
        assert(hash_checks_cleanly(fi[k].hash@));
        assert(password_check(candidate, fi[k].hash@) is Some);
    }
    lemma_scan_characterization(candidate, hs);
    lemma_scan_some_outcomes(candidate, hs);
    let v = scan_outcome(candidate, hs);
    let a = v->Ok_0;
    assert(v == Ok::<AuthenticationResult, StoreError>(a));
    if exists|k: int|
        0 <= k < hs.len() && password_check(candidate, #[trigger] hs[k]) == Some(true) {
        if a is IncorrectPassword {
            let k = choose|k: int|
                0 <= k < hs.len() && password_check(candidate, #[trigger] hs[k]) == Some(true);
            assert(password_check(candidate, hs[k]) == Some(false));
            assert(false);
        }
        assert(a is Success);
    }
}

} // verus!
