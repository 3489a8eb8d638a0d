//! The per-user actor and the session manager.  The actor owns one
//! budget, executes commands serially and reports what to persist; the
//! manager owns the token-to-actor table, routes messages by token and
//! reaps dead actors.  All waiting, spawning and channel work stays
//! with the caller; everything decided here is a function of the state
//! and the message.

use vstd::prelude::*;
use crate::budget::{auto_total, deduct_autos, idx_of, pay_autos, Budget, BudgetView};
use crate::flatjson::{
    flat_get, flat_lookup, flat_views, parse_flat, sp_flat_pairs, sp_flat_value, sp_parse_flat,
    FlatV, FlatVal,
};
use crate::http_utils::{bad_request, bad_request_msg, ok_json, spec_error_body, Response};
use crate::json::{ser_budget, serialize_budget, sp_string};
use crate::money::{sat_i64, spec_decimal_cents, parse_decimal_chars};
use crate::text::{chars_of_str, is_plain, lower};

verus! {

/// How a command turned out: an unreadable body, a named failure, or a
/// completed command.
pub enum CommandOutcome {
    BadJson,
    Failed(String),
    Done(String),
}

/// The mathematical image of an outcome; a completed command's reply
/// body is the budget's rendering and needs no payload here.
pub ghost enum CmdOut {
    BadJson,
    Failed(Seq<char>),
    Done,
}

/// The result of reading an amount field.
pub ghost enum AmtRes {
    Missing,
    NotStr,
    NotNum,
    Cents(int),
}

/// Reads an amount field: it must exist, hold a string, and the string
/// must be a decimal amount.
pub open spec fn spec_amount(ps: Seq<(Seq<char>, FlatV)>, key: Seq<char>) -> AmtRes {
    match flat_get(ps, key) {
        None => AmtRes::Missing,
        Some(FlatV::Other) => AmtRes::NotStr,
        Some(FlatV::S(t)) => match spec_decimal_cents(t) {
            None => AmtRes::NotNum,
            Some(c) => AmtRes::Cents(c),
        },
    }
}

/// The `new` command: create or overwrite an expense category.
pub open spec fn spec_cmd_new(b: BudgetView, ps: Seq<(Seq<char>, FlatV)>) -> (
    BudgetView,
    CmdOut,
) {
    match flat_get(ps, "label"@) {
        None => (b, CmdOut::Failed("missing_new_label_field"@)),
        Some(FlatV::Other) => (b, CmdOut::Failed("invalid_new_label_field"@)),
        Some(FlatV::S(l)) => match spec_amount(ps, "amount"@) {
            AmtRes::Missing => (b, CmdOut::Failed("missing_new_amount_field"@)),
            AmtRes::NotStr => (b, CmdOut::Failed("invalid_new_amount_field"@)),
            AmtRes::NotNum => (b, CmdOut::Failed("invalid_new_amount_value"@)),
            AmtRes::Cents(c) => {
                let ll = lower(l);
                let idx = idx_of(b.entries, ll);
                let b2 = if idx >= 0 {
                    BudgetView { entries: b.entries.update(idx, (ll, c, 0int)), ..b }
                } else {
                    BudgetView { entries: b.entries.push((ll, c, 0int)), ..b }
                };
                (b2, CmdOut::Done)
            },
        },
    }
}

/// The `getpaid` command: with an amount, add it to the balance; bare,
/// run a pay period — refresh, add the income, and attempt the batch
/// of automatic payments against the new balance.
pub open spec fn spec_cmd_getpaid(b: BudgetView, ps: Seq<(Seq<char>, FlatV)>) -> (
    BudgetView,
    CmdOut,
) {
    match flat_get(ps, "amount"@) {
        None => {
            let b1 = BudgetView {
                current_balance: sat_i64(b.current_balance + b.expected_income),
                entries: Seq::new(b.entries.len(), |i: int| (b.entries[i].0, b.entries[i].1, 0int)),
                ..b
            };
            let es = b1.entries;
            let total = auto_total(es);
            if total == 0 {
                (b1, CmdOut::Done)
            } else if b1.current_balance - total < 0 {
                (b1, CmdOut::Done)
            } else {
                (
                    BudgetView {
                        current_balance: deduct_autos(b1.current_balance, es, es.len() as int),
                        entries: pay_autos(es, es.len() as int),
                        ..b1
                    },
                    CmdOut::Done,
                )
            }
        },
        Some(FlatV::Other) => (b, CmdOut::Failed("invalid_paid_amount_field"@)),
        Some(FlatV::S(t)) => match spec_decimal_cents(t) {
            None => (b, CmdOut::Failed("invalid_paid_amount_value"@)),
            Some(c) => (
                BudgetView { current_balance: sat_i64(b.current_balance + c), ..b },
                CmdOut::Done,
            ),
        },
    }
}

/// The `setincome` command.
pub open spec fn spec_cmd_setincome(b: BudgetView, ps: Seq<(Seq<char>, FlatV)>) -> (
    BudgetView,
    CmdOut,
) {
    match spec_amount(ps, "amount"@) {
        AmtRes::Missing => (b, CmdOut::Failed("missing_income_amount_field"@)),
        AmtRes::NotStr => (b, CmdOut::Failed("invalid_income_amount_field"@)),
        AmtRes::NotNum => (b, CmdOut::Failed("invalid_income_amount_value"@)),
        AmtRes::Cents(c) => (BudgetView { expected_income: c, ..b }, CmdOut::Done),
    }
}

/// The `raiseincome` command.
pub open spec fn spec_cmd_raiseincome(b: BudgetView, ps: Seq<(Seq<char>, FlatV)>) -> (
    BudgetView,
    CmdOut,
) {
    match spec_amount(ps, "amount"@) {
        AmtRes::Missing => (b, CmdOut::Failed("missing_raise_amount_field"@)),
        AmtRes::NotStr => (b, CmdOut::Failed("invalid_raise_amount_field"@)),
        AmtRes::NotNum => (b, CmdOut::Failed("invalid_raise_amount_value"@)),
        AmtRes::Cents(c) => (
            BudgetView { expected_income: sat_i64(b.expected_income + c), ..b },
            CmdOut::Done,
        ),
    }
}

/// One payment into the category at `idx`.
pub open spec fn spec_payment(b: BudgetView, idx: int, c: int) -> BudgetView {
    BudgetView {
        current_balance: sat_i64(b.current_balance - c),
        entries: b.entries.update(
            idx,
            (b.entries[idx].0, b.entries[idx].1, sat_i64(b.entries[idx].2 + c)),
        ),
        ..b
    }
}

/// The `pay` command: with an amount, a dynamic payment; bare, a static
/// payment of the category's expected amount.
pub open spec fn spec_cmd_pay(b: BudgetView, ps: Seq<(Seq<char>, FlatV)>) -> (BudgetView, CmdOut) {
    match flat_get(ps, "label"@) {
        None => (b, CmdOut::Failed("missing_payment_label_field"@)),
        Some(FlatV::Other) => (b, CmdOut::Failed("invalid_payment_label_field"@)),
        Some(FlatV::S(l)) => {
            let ll = lower(l);
            let idx = idx_of(b.entries, ll);
            match flat_get(ps, "amount"@) {
                None => {
                    if idx < 0 {
                        (b, CmdOut::Failed("expense_not_found"@))
                    } else {
                        (spec_payment(b, idx, b.entries[idx].1), CmdOut::Done)
                    }
                },
                Some(FlatV::Other) => (b, CmdOut::Failed("invalid_payment_amount_field"@)),
                Some(FlatV::S(t)) => match spec_decimal_cents(t) {
                    None => (b, CmdOut::Failed("invalid_payment_amount_value"@)),
                    Some(c) => {
                        if idx < 0 {
                            (b, CmdOut::Failed("expense_not_found"@))
                        } else {
                            (spec_payment(b, idx, c), CmdOut::Done)
                        }
                    },
                },
            }
        },
    }
}

/// The `save` command: move funds into savings; the literal amount
/// `"all"` moves the whole balance.
pub open spec fn spec_cmd_save(b: BudgetView, ps: Seq<(Seq<char>, FlatV)>) -> (BudgetView, CmdOut) {
    match flat_get(ps, "amount"@) {
        None => (b, CmdOut::Failed("missing_save_amount_field"@)),
        Some(FlatV::Other) => (b, CmdOut::Failed("invalid_save_amount_field"@)),
        Some(FlatV::S(t)) => match spec_decimal_cents(t) {
            Some(c) => {
                if b.current_balance < c {
                    (b, CmdOut::Failed("Not enough in balance to save that much!"@))
                } else {
                    (
                        BudgetView {
                            current_balance: sat_i64(b.current_balance - c),
                            savings: sat_i64(b.savings + c),
                            ..b
                        },
                        CmdOut::Done,
                    )
                }
            },
            None => {
                if t == "all"@ {
                    (
                        BudgetView {
                            current_balance: 0,
                            savings: sat_i64(b.savings + b.current_balance),
                            ..b
                        },
                        CmdOut::Done,
                    )
                } else {
                    (b, CmdOut::Failed("invalid_save_amount_value"@))
                }
            },
        },
    }
}

/// What one command body does to a budget, and what comes back: the
/// whole command table as a function of the old budget and the body.
pub open spec fn spec_execute(b: BudgetView, s: Seq<char>) -> (BudgetView, CmdOut) {
    match sp_parse_flat(s) {
        None => (b, CmdOut::BadJson),
        Some(ps) => match flat_get(ps, "command"@) {
            None => (b, CmdOut::BadJson),
            Some(cv) => {
                let cmd = match cv {
                    FlatV::S(t) => t,
                    FlatV::Other => Seq::<char>::empty(),
                };
                if cmd == "new"@ {
                    spec_cmd_new(b, ps)
                } else if cmd == "getpaid"@ {
                    spec_cmd_getpaid(b, ps)
                } else if cmd == "setincome"@ {
                    spec_cmd_setincome(b, ps)
                } else if cmd == "raiseincome"@ {
                    spec_cmd_raiseincome(b, ps)
                } else if cmd == "pay"@ {
                    spec_cmd_pay(b, ps)
                } else if cmd == "save"@ {
                    spec_cmd_save(b, ps)
                } else {
                    (b, CmdOut::Failed("invalid-command"@))
                }
            },
        },
    }
}

/// Every string value a flat parse yields is plain.
proof fn lemma_flat_pairs_plain(s: Seq<char>, i: int)
    ensures
        sp_flat_pairs(s, i) matches Some(pe) ==> forall|k: int|
            0 <= k < pe.0.len() ==> ((#[trigger] pe.0[k]).1 matches FlatV::S(t) ==> is_plain(t)),
    decreases s.len() - i,
{
    if !(0 <= i < s.len() && s[i] == '"') {
    } else {
        match sp_string(s, i + 1) {
            None => {}
            Some((name, e)) => {
                let j1 = crate::flatjson::ws_end(s, e + 1);
                if !(j1 < s.len() && s[j1] == ':') {
                } else {
                    let j2 = crate::flatjson::ws_end(s, j1 + 1);
                    crate::json::lemma_sp_string_plain(s, j2 + 1);
                    match sp_flat_value(s, j2) {
                        None => {}
                        Some((v, j3)) => {
                            let j4 = crate::flatjson::ws_end(s, j3);
                            if j4 < s.len() && s[j4] == ',' {
                                let j5 = crate::flatjson::ws_end(s, j4 + 1);
                                if j5 <= i || j5 > s.len() {
                                } else {
                                    lemma_flat_pairs_plain(s, j5);
                                    match sp_flat_pairs(s, j5) {
                                        None => {}
                                        Some((ps, _j6)) => {
                                            let whole = seq![(name, v)] + ps;
                                            assert forall|k: int|
                                                0 <= k < whole.len() implies ((
                                            #[trigger] whole[k]).1 matches FlatV::S(t)
                                                ==> is_plain(t)) by {
                                                if k == 0 {
                                                    assert(whole[0] == (name, v));
                                                } else {
                                                    assert(whole[k] == ps[k - 1]);
                                                }
                                            }
                                        }
                                    }
                                }
                            } else {
                                assert(seq![(name, v)][0] == (name, v));
                            }
                        },
                    }
                }
            },
        }
    }
}

/// What a field lookup hands back came out of the parse.
pub proof fn lemma_flat_get_plain(ps: Seq<(Seq<char>, FlatV)>, key: Seq<char>)
    requires
        forall|k: int|
            0 <= k < ps.len() ==> ((#[trigger] ps[k]).1 matches FlatV::S(t) ==> is_plain(t)),
    ensures
        flat_get(ps, key) matches Some(v) ==> (v matches FlatV::S(t) ==> is_plain(t)),
    decreases ps.len(),
{
    if ps.len() > 0 && ps.last().0 != key {
        assert forall|k: int|
            0 <= k < ps.drop_last().len() implies ((#[trigger] ps.drop_last()[k]).1
            matches FlatV::S(t) ==> is_plain(t)) by {
            assert(ps.drop_last()[k] == ps[k]);
        }
        lemma_flat_get_plain(ps.drop_last(), key);
    }
}

/// The strings a body parse yields are plain.
pub proof fn lemma_parse_flat_plain(s: Seq<char>)
    ensures
        sp_parse_flat(s) matches Some(ps) ==> forall|k: int|
            0 <= k < ps.len() ==> ((#[trigger] ps[k]).1 matches FlatV::S(t) ==> is_plain(t)),
{
    let i0 = crate::flatjson::ws_end(s, 0);
    if i0 < s.len() && s[i0] == '{' {
        let i1 = crate::flatjson::ws_end(s, i0 + 1);
        lemma_flat_pairs_plain(s, i1);
    }
}

/// Reads an amount field out of a parsed body.
fn read_amount(ps: &Vec<(String, FlatVal)>, key: &str) -> (r: Result<i64, AmountErr>)
    ensures
        match r {
            Ok(c) => spec_amount(flat_views(ps@), key@) == AmtRes::Cents(c as int),
            Err(AmountErr::Missing) => spec_amount(flat_views(ps@), key@) == AmtRes::Missing,
            Err(AmountErr::NotStr) => spec_amount(flat_views(ps@), key@) == AmtRes::NotStr,
            Err(AmountErr::NotNum) => spec_amount(flat_views(ps@), key@) == AmtRes::NotNum,
        },
{
    let k = String::from_str(key);
    match flat_lookup(ps, &k) {
        None => Err(AmountErr::Missing),
        Some(FlatVal::Other) => Err(AmountErr::NotStr),
        Some(FlatVal::S(t)) => {
            let cs = chars_of_str(t.as_str());
            proof {
                assert(cs@.skip(0) =~= t@);
            }
            match parse_decimal_chars(&cs, 0) {
                Some(c) => Ok(c),
                None => Err(AmountErr::NotNum),
            }
        },
    }
}

/// Why an amount field could not be read.
pub enum AmountErr {
    Missing,
    NotStr,
    NotNum,
}

/// Runs one command body against the budget: parses it, executes the
/// command, and reports the outcome with the budget's new rendering.
pub fn execute_command(budget: &mut Budget, jsondata: &str) -> (r: CommandOutcome)
    ensures
        final(budget)@ == spec_execute(old(budget)@, jsondata@).0,
        ({
            let oc = spec_execute(old(budget)@, jsondata@).1;
            match r {
                CommandOutcome::BadJson => oc == CmdOut::BadJson,
                CommandOutcome::Failed(m) => oc == CmdOut::Failed(m@),
                CommandOutcome::Done(j) => oc == CmdOut::Done && j@ == ser_budget(
                    final(budget)@,
                ),
            }
        }),
        old(budget)@.wf() ==> final(budget)@.wf(),
{
    let Some(ps) = parse_flat(jsondata) else {
        return CommandOutcome::BadJson;
    };
    proof {
        lemma_parse_flat_plain(jsondata@);
    }
    let ckey = String::from_str("command");
    let cmd: String = match flat_lookup(&ps, &ckey) {
        None => {
            return CommandOutcome::BadJson;
        },
        Some(FlatVal::Other) => String::new(),
        Some(FlatVal::S(t)) => t.clone(),
    };
    let c = cmd.as_str();
    if crate::router::str_eq(c, "new") {
        let lkey = String::from_str("label");
        let label: String = match flat_lookup(&ps, &lkey) {
            None => {
                return CommandOutcome::Failed(String::from_str("missing_new_label_field"));
            },
            Some(FlatVal::Other) => {
                return CommandOutcome::Failed(String::from_str("invalid_new_label_field"));
            },
            Some(FlatVal::S(t)) => t.clone(),
        };
        let cents = match read_amount(&ps, "amount") {
            Err(AmountErr::Missing) => {
                return CommandOutcome::Failed(String::from_str("missing_new_amount_field"));
            },
            Err(AmountErr::NotStr) => {
                return CommandOutcome::Failed(String::from_str("invalid_new_amount_field"));
            },
            Err(AmountErr::NotNum) => {
                return CommandOutcome::Failed(String::from_str("invalid_new_amount_value"));
            },
            Ok(v) => v,
        };
        proof {
            lemma_flat_get_plain(flat_views(ps@), "label"@);
        }
        budget.add_expense(label.as_str(), cents);
        CommandOutcome::Done(serialize_budget(budget))
    } else if crate::router::str_eq(c, "getpaid") {
        let akey = String::from_str("amount");
        match flat_lookup(&ps, &akey) {
            None => {
                let _ignored = budget.get_paid();
                CommandOutcome::Done(serialize_budget(budget))
            },
            Some(FlatVal::Other) => CommandOutcome::Failed(
                String::from_str("invalid_paid_amount_field"),
            ),
            Some(FlatVal::S(t)) => {
                let cs = chars_of_str(t.as_str());
                proof {
                    assert(cs@.skip(0) =~= t@);
                }
                match parse_decimal_chars(&cs, 0) {
                    None => CommandOutcome::Failed(String::from_str("invalid_paid_amount_value")),
                    Some(cents) => {
                        budget.get_paid_value(cents);
                        CommandOutcome::Done(serialize_budget(budget))
                    },
                }
            },
        }
    } else if crate::router::str_eq(c, "setincome") {
        match read_amount(&ps, "amount") {
            Err(AmountErr::Missing) => CommandOutcome::Failed(
                String::from_str("missing_income_amount_field"),
            ),
            Err(AmountErr::NotStr) => CommandOutcome::Failed(
                String::from_str("invalid_income_amount_field"),
            ),
            Err(AmountErr::NotNum) => CommandOutcome::Failed(
                String::from_str("invalid_income_amount_value"),
            ),
            Ok(cents) => {
                budget.set_income(cents);
                CommandOutcome::Done(serialize_budget(budget))
            },
        }
    } else if crate::router::str_eq(c, "raiseincome") {
        match read_amount(&ps, "amount") {
            Err(AmountErr::Missing) => CommandOutcome::Failed(
                String::from_str("missing_raise_amount_field"),
            ),
            Err(AmountErr::NotStr) => CommandOutcome::Failed(
                String::from_str("invalid_raise_amount_field"),
            ),
            Err(AmountErr::NotNum) => CommandOutcome::Failed(
                String::from_str("invalid_raise_amount_value"),
            ),
            Ok(cents) => {
                budget.add_income(cents);
                CommandOutcome::Done(serialize_budget(budget))
            },
        }
    } else if crate::router::str_eq(c, "pay") {
        let lkey = String::from_str("label");
        let label: String = match flat_lookup(&ps, &lkey) {
            None => {
                return CommandOutcome::Failed(String::from_str("missing_payment_label_field"));
            },
            Some(FlatVal::Other) => {
                return CommandOutcome::Failed(String::from_str("invalid_payment_label_field"));
            },
            Some(FlatVal::S(t)) => t.clone(),
        };
        let akey = String::from_str("amount");
        let pay_result: Result<String, String> = match flat_lookup(&ps, &akey) {
            None => budget.make_static_payment(label.as_str()),
            Some(FlatVal::Other) => {
                return CommandOutcome::Failed(String::from_str("invalid_payment_amount_field"));
            },
            Some(FlatVal::S(t)) => {
                let cs = chars_of_str(t.as_str());
                proof {
                    assert(cs@.skip(0) =~= t@);
                }
                match parse_decimal_chars(&cs, 0) {
                    None => {
                        return CommandOutcome::Failed(
                            String::from_str("invalid_payment_amount_value"),
                        );
                    },
                    Some(cents) => budget.make_dynamic_payment(label.as_str(), cents),
                }
            },
        };
        match pay_result {
            Err(msg) => CommandOutcome::Failed(msg),
            Ok(_confirmation) => CommandOutcome::Done(serialize_budget(budget)),
        }
    } else if crate::router::str_eq(c, "save") {
        let akey = String::from_str("amount");
        let save_result: Result<String, String> = match flat_lookup(&ps, &akey) {
            None => {
                return CommandOutcome::Failed(String::from_str("missing_save_amount_field"));
            },
            Some(FlatVal::Other) => {
                return CommandOutcome::Failed(String::from_str("invalid_save_amount_field"));
            },
            Some(FlatVal::S(t)) => {
                let cs = chars_of_str(t.as_str());
                proof {
                    assert(cs@.skip(0) =~= t@);
                }
                match parse_decimal_chars(&cs, 0) {
                    Some(cents) => budget.save(cents),
                    None => {
                        if crate::router::str_eq(t.as_str(), "all") {
                            budget.save_all()
                        } else {
                            return CommandOutcome::Failed(
                                String::from_str("invalid_save_amount_value"),
                            );
                        }
                    },
                }
            },
        };
        match save_result {
            Err(msg) => CommandOutcome::Failed(msg),
            Ok(_confirmation) => CommandOutcome::Done(serialize_budget(budget)),
        }
    } else {
        CommandOutcome::Failed(String::from_str("invalid-command"))
    }
}

/// Seconds of inactivity after which a user actor retires.
pub const SECONDS_TO_TIMEOUT_USER_THREAD: u64 = 30 * 60;

/// What the manager can be told; the connection itself travels beside
/// the message, owned by whoever forwards it.
pub enum UserManagerMessageType {
    Creation { id: String, token: String },
    UserCommand { token: String, jsondata: String },
    UserDataRequest { token: String },
    Shutdown { token: String },
    TimeoutCheck,
}

/// A manager message with the request id it belongs to.
pub struct UserManagerThreadMessage {
    pub id: Option<usize>,
    pub msg: UserManagerMessageType,
}

impl UserManagerThreadMessage {
    pub fn creation(id: usize, uuid: String, token: String) -> (r: UserManagerThreadMessage)
        ensures
            r.id == Some(id),
            r.msg == (UserManagerMessageType::Creation { id: uuid, token }),
    {
        UserManagerThreadMessage { id: Some(id), msg: UserManagerMessageType::Creation { id: uuid, token } }
    }

    pub fn user_command(id: usize, token: String, jsondata: String) -> (r: UserManagerThreadMessage)
        ensures
            r.id == Some(id),
            r.msg == (UserManagerMessageType::UserCommand { token, jsondata }),
    {
        UserManagerThreadMessage {
            id: Some(id),
            msg: UserManagerMessageType::UserCommand { token, jsondata },
        }
    }

    pub fn user_data_request(id: usize, token: String) -> (r: UserManagerThreadMessage)
        ensures
            r.id == Some(id),
            r.msg == (UserManagerMessageType::UserDataRequest { token }),
    {
        UserManagerThreadMessage { id: Some(id), msg: UserManagerMessageType::UserDataRequest { token } }
    }

    pub fn shutdown(id: usize, token: String) -> (r: UserManagerThreadMessage)
        ensures
            r.id == Some(id),
            r.msg == (UserManagerMessageType::Shutdown { token }),
    {
        UserManagerThreadMessage { id: Some(id), msg: UserManagerMessageType::Shutdown { token } }
    }

    pub fn timeout_check() -> (r: UserManagerThreadMessage)
        ensures
            r.id is None,
            r.msg == UserManagerMessageType::TimeoutCheck,
    {
        UserManagerThreadMessage { id: None, msg: UserManagerMessageType::TimeoutCheck }
    }
}

/// What a user actor can be told.
pub enum UserThreadCommandType {
    UserCommand { jsondata: String },
    UserDataRequest,
    Shutdown,
    TimeoutCheck,
    Check,
}

/// A user-actor message with the request id it belongs to.
pub struct UserThreadMessage {
    pub id: Option<usize>,
    pub cmd: UserThreadCommandType,
}

impl UserThreadMessage {
    pub fn user_command(id: Option<usize>, jsondata: String) -> (r: UserThreadMessage)
        ensures
            r.id == id,
            r.cmd == (UserThreadCommandType::UserCommand { jsondata }),
    {
        UserThreadMessage { id, cmd: UserThreadCommandType::UserCommand { jsondata } }
    }

    pub fn user_data_request(id: Option<usize>) -> (r: UserThreadMessage)
        ensures
            r.id == id,
            r.cmd == UserThreadCommandType::UserDataRequest,
    {
        UserThreadMessage { id, cmd: UserThreadCommandType::UserDataRequest }
    }

    pub fn shutdown(id: Option<usize>) -> (r: UserThreadMessage)
        ensures
            r.id == id,
            r.cmd == UserThreadCommandType::Shutdown,
    {
        UserThreadMessage { id, cmd: UserThreadCommandType::Shutdown }
    }

    pub fn timeout_check() -> (r: UserThreadMessage)
        ensures
            r.id is None,
            r.cmd == UserThreadCommandType::TimeoutCheck,
    {
        UserThreadMessage { id: None, cmd: UserThreadCommandType::TimeoutCheck }
    }

    pub fn check(id: Option<usize>) -> (r: UserThreadMessage)
        ensures
            r.id == id,
            r.cmd == UserThreadCommandType::Check,
    {
        UserThreadMessage { id, cmd: UserThreadCommandType::Check }
    }
}

/// What the actor decides for one message: a reply (with what to
/// persist, when a command ran), silence, or the end of its loop.
pub enum ActorStep {
    Reply { response: Response, persist: Option<String> },
    Exit,
    Continue,
}

/// One user's actor state: the budget it owns, its user id, and the
/// time of the last activity, in seconds.
pub struct UserSession {
    pub budget: Budget,
    pub user_id: String,
    pub last_activity: u64,
}

impl UserSession {
    /// A fresh actor around a loaded budget.
    pub fn start(user_id: String, budget: Budget, now: u64) -> (r: UserSession)
        ensures
            r.budget == budget,
            r.user_id == user_id,
            r.last_activity == now,
    {
        UserSession { budget, user_id, last_activity: now }
    }

    /// Handles one message: a data request reads the budget, a command
    /// runs it (persisting afterwards, unless the body was unreadable),
    /// a shutdown or an overdue timeout check ends the loop, and a
    /// probe does nothing.  An actor that exits closes its receiver,
    /// and the sweep's failed probe then reaps its token — see
    /// `lemma_remove_token_gone`.
    pub fn handle_message(&mut self, cmd: UserThreadCommandType, now: u64) -> (r: ActorStep)
        ensures
            match cmd {
                UserThreadCommandType::UserDataRequest => {
                    &&& final(self).budget == old(self).budget
                    &&& final(self).user_id == old(self).user_id
                    &&& final(self).last_activity == now
                    &&& r matches ActorStep::Reply { response, persist } && response.status == 200
                        && response.body@ == vstd::utf8::encode_utf8(
                        ser_budget(old(self).budget@),
                    ) && persist is None
                },
                UserThreadCommandType::UserCommand { jsondata } => {
                    let b2 = spec_execute(old(self).budget@, jsondata@).0;
                    let oc = spec_execute(old(self).budget@, jsondata@).1;
                    &&& final(self).budget@ == b2
                    &&& final(self).user_id == old(self).user_id
                    &&& final(self).last_activity == now
                    &&& (old(self).budget@.wf() ==> final(self).budget@.wf())
                    &&& r matches ActorStep::Reply { response, persist } && match oc {
                        CmdOut::BadJson => response.status == 400 && response.body@ == Seq::<
                            u8,
                        >::empty() && persist is None,
                        CmdOut::Failed(m) => response.status == 400 && response.body@
                            == spec_error_body(m) && (persist matches Some(p) && p@ == ser_budget(
                            b2,
                        )),
                        CmdOut::Done => response.status == 200 && response.body@
                            == vstd::utf8::encode_utf8(ser_budget(b2)) && (persist matches Some(p)
                            && p@ == ser_budget(b2)),
                    }
                },
                UserThreadCommandType::Shutdown => *final(self) == *old(self) && r
                    == ActorStep::Exit,
                UserThreadCommandType::TimeoutCheck => {
                    &&& *final(self) == *old(self)
                    &&& (now > old(self).last_activity + SECONDS_TO_TIMEOUT_USER_THREAD ==> r
                        == ActorStep::Exit)
                    &&& (now <= old(self).last_activity + SECONDS_TO_TIMEOUT_USER_THREAD ==> r
                        == ActorStep::Continue)
                },
                UserThreadCommandType::Check => *final(self) == *old(self) && r
                    == ActorStep::Continue,
            },
    {
        match cmd {
            UserThreadCommandType::UserDataRequest => {
                self.last_activity = now;
                let body = serialize_budget(&self.budget);
                ActorStep::Reply { response: ok_json(200, body), persist: None }
            },
            UserThreadCommandType::UserCommand { jsondata } => {
                self.last_activity = now;
                match execute_command(&mut self.budget, jsondata.as_str()) {
                    CommandOutcome::BadJson => ActorStep::Reply {
                        response: bad_request(),
                        persist: None,
                    },
                    CommandOutcome::Failed(msg) => {
                        let saved = serialize_budget(&self.budget);
                        ActorStep::Reply { response: bad_request_msg(msg), persist: Some(saved) }
                    },
                    CommandOutcome::Done(json) => {
                        let saved = serialize_budget(&self.budget);
                        ActorStep::Reply { response: ok_json(200, json), persist: Some(saved) }
                    },
                }
            },
            UserThreadCommandType::Shutdown => ActorStep::Exit,
            UserThreadCommandType::TimeoutCheck => {
                let overdue = if self.last_activity <= u64::MAX - SECONDS_TO_TIMEOUT_USER_THREAD {
                    now > self.last_activity + SECONDS_TO_TIMEOUT_USER_THREAD
                } else {
                    false
                };
                if overdue {
                    ActorStep::Exit
                } else {
                    ActorStep::Continue
                }
            },
            UserThreadCommandType::Check => ActorStep::Continue,
        }
    }

    /// The budget's rendering for the final write when the loop ends.
    pub fn final_persist(&self) -> (r: String)
        ensures
            r@ == ser_budget(self.budget@),
    {
        serialize_budget(&self.budget)
    }
}

/// The views of the token table entries.
pub open spec fn tok_views(es: Seq<(String, usize)>) -> Seq<(Seq<char>, int)> {
    es.map_values(|e: (String, usize)| (e.0@, e.1 as int))
}

/// Index of the first entry carrying this token, or -1.
pub open spec fn tok_idx(es: Seq<(Seq<char>, int)>, t: Seq<char>) -> int
    decreases es.len(),
{
    if es.len() == 0 {
        -1
    } else if es[0].0 == t {
        0
    } else {
        let r = tok_idx(es.skip(1), t);
        if r < 0 {
            -1
        } else {
            r + 1
        }
    }
}

pub proof fn lemma_tok_idx(es: Seq<(Seq<char>, int)>, t: Seq<char>)
    ensures
        -1 <= tok_idx(es, t) < es.len(),
        tok_idx(es, t) >= 0 ==> es[tok_idx(es, t)].0 == t,
        tok_idx(es, t) == -1 ==> forall|i: int| 0 <= i < es.len() ==> (#[trigger] es[i]).0 != t,
        forall|i: int| 0 <= i < tok_idx(es, t) ==> (#[trigger] es[i]).0 != t,
    decreases es.len(),
{
    if es.len() > 0 && es[0].0 != t {
        lemma_tok_idx(es.skip(1), t);
        assert(forall|i: int| 1 <= i < es.len() ==> #[trigger] es[i] == es.skip(1)[i - 1]);
    }
}

/// The slot a token maps to, if the token is known.
pub open spec fn spec_token_lookup(es: Seq<(Seq<char>, int)>, t: Seq<char>) -> Option<int> {
    let k = tok_idx(es, t);
    if k >= 0 {
        Some(es[k].1)
    } else {
        None
    }
}

/// Tokens unique, and slots unique: each token owns one actor and each
/// actor serves one token.
pub open spec fn table_wf(es: Seq<(Seq<char>, int)>) -> bool {
    &&& forall|i: int, j: int|
        0 <= i < j < es.len() ==> (#[trigger] es[i]).0 != (#[trigger] es[j]).0
    &&& forall|i: int, j: int|
        0 <= i < j < es.len() ==> (#[trigger] es[i]).1 != (#[trigger] es[j]).1
}

/// The session manager's token table: one slot per live actor.
pub struct SessionTable {
    entries: Vec<(String, usize)>,
}

impl SessionTable {
    pub closed spec fn view_entries(&self) -> Seq<(Seq<char>, int)> {
        tok_views(self.entries@)
    }

    /// An empty table.
    pub fn new() -> (r: SessionTable)
        ensures
            r.view_entries() == Seq::<(Seq<char>, int)>::empty(),
            table_wf(r.view_entries()),
    {
        let r = SessionTable { entries: Vec::new() };
        proof {
            assert(r.view_entries() =~= Seq::<(Seq<char>, int)>::empty());
        }
        r
    }

    /// How many actors are live.
    pub fn len(&self) -> (r: usize)
        ensures
            r == self.view_entries().len(),
    {
        self.entries.len()
    }

    /// The token at a position, for sweeping over the table.
    pub fn token_at(&self, i: usize) -> (r: &String)
        requires
            i < self.view_entries().len(),
        ensures
            r@ == self.view_entries()[i as int].0,
    {
        let e = &self.entries[i];
        &e.0
    }

    /// The slot at a position, for sweeping over the table.
    pub fn slot_at(&self, i: usize) -> (r: usize)
        requires
            i < self.view_entries().len(),
        ensures
            r as int == self.view_entries()[i as int].1,
    {
        let e = &self.entries[i];
        e.1
    }

    /// Records a fresh session: the token now maps to the slot.  With
    /// a slot no other entry uses, a well-formed table stays so.
    pub fn creation(&mut self, token: String, slot: usize)
        ensures
            ({
                let es = old(self).view_entries();
                let k = tok_idx(es, token@);
                if k >= 0 {
                    final(self).view_entries() == es.update(k, (token@, slot as int))
                } else {
                    final(self).view_entries() == es.push((token@, slot as int))
                }
            }),
            table_wf(old(self).view_entries()) && (forall|i: int|
                0 <= i < old(self).view_entries().len() ==> (#[trigger] old(
                    self,
                ).view_entries()[i]).1 != slot as int) ==> table_wf(final(self).view_entries()),
    {
        proof {
            lemma_tok_idx(self.view_entries(), token@);
        }
        let mut i: usize = 0;
        let n = self.entries.len();
        while i < n
            invariant
                n == self.entries@.len(),
                i <= n,
                self.entries == old(self).entries,
                forall|j: int| 0 <= j < i ==> (#[trigger] self.view_entries()[j]).0 != token@,
            decreases n - i,
        {
            let hit = {
                let e = &self.entries[i];
                e.0 == token
            };
            if hit {
                proof {
                    lemma_tok_idx(self.view_entries(), token@);
                    let kk = tok_idx(self.view_entries(), token@);
                    assert(self.view_entries()[i as int].0 == token@);
                    if kk == -1 {
                        assert(false);
                    } else if kk < i {
                        assert(self.view_entries()[kk].0 == token@);
                        assert(false);
                    } else if kk > i {
                        assert(self.view_entries()[i as int].0 != token@);
                        assert(false);
                    }
                }
                self.entries[i] = (token, slot);
                proof {
                    let es = old(self).view_entries();
                    let es2 = self.view_entries();
                    assert(es2 =~= es.update(i as int, (token@, slot as int)));
                    if table_wf(es) && (forall|t: int|
                        0 <= t < es.len() ==> (#[trigger] es[t]).1 != slot as int) {
                        assert forall|a: int, b: int|
                            0 <= a < b < es2.len() implies (#[trigger] es2[a]).0 != (
                        #[trigger] es2[b]).0 && es2[a].1 != es2[b].1 by {
                            if a != i && b != i {
                                assert(es2[a] == es[a] && es2[b] == es[b]);
                            } else if a == i {
                                assert(es2[b] == es[b]);
                                assert(es[i as int].0 == token@);
                            } else {
                                assert(es2[a] == es[a]);
                                assert(es[i as int].0 == token@);
                            }
                        }
                    }
                }
                return ;
            }
            i = i + 1;
        }
        self.entries.push((token, slot));
        proof {
            let es = old(self).view_entries();
            let es2 = self.view_entries();
            assert(es2 =~= es.push((token@, slot as int)));
            if table_wf(es) && (forall|t: int|
                0 <= t < es.len() ==> (#[trigger] es[t]).1 != slot as int) {
                assert forall|a: int, b: int|
                    0 <= a < b < es2.len() implies (#[trigger] es2[a]).0 != (#[trigger] es2[b]).0
                    && es2[a].1 != es2[b].1 by {
                    if b < es2.len() - 1 {
                        assert(es2[a] == es[a] && es2[b] == es[b]);
                    } else {
                        assert(es2[a] == es[a]);
                        assert(es2[b] == (token@, slot as int));
                        assert(es[a].0 != token@);
                    }
                }
            }
        }
    }

    /// The slot serving a token, if the token is live.
    pub fn lookup(&self, token: &String) -> (r: Option<usize>)
        ensures
            match r {
                Some(s) => spec_token_lookup(self.view_entries(), token@) == Some(s as int),
                None => spec_token_lookup(self.view_entries(), token@) is None,
            },
    {
        proof {
            lemma_tok_idx(self.view_entries(), token@);
        }
        let n = self.entries.len();
        let mut i: usize = 0;
        while i < n
            invariant
                n == self.entries@.len(),
                i <= n,
                forall|j: int| 0 <= j < i ==> (#[trigger] self.view_entries()[j]).0 != token@,
            decreases n - i,
        {
            let hit = {
                let e = &self.entries[i];
                e.0 == *token
            };
            if hit {
                proof {
                    lemma_tok_idx(self.view_entries(), token@);
                    let kk = tok_idx(self.view_entries(), token@);
                    assert(self.view_entries()[i as int].0 == token@);
                    if kk == -1 {
                        assert(false);
                    } else if kk < i {
                        assert(self.view_entries()[kk].0 == token@);
                        assert(false);
                    } else if kk > i {
                        assert(self.view_entries()[i as int].0 != token@);
                        assert(false);
                    }
                }
                let e = &self.entries[i];
                return Some(e.1);
            }
            i = i + 1;
        }
        None
    }

    /// Removes a token's entry, handing back the slot it served, or
    /// nothing for an unknown token.  Explicit logout and the sweep's
    /// reaping both come through here.
    pub fn remove_token(&mut self, token: &String) -> (r: Option<usize>)
        ensures
            ({
                let es = old(self).view_entries();
                let k = tok_idx(es, token@);
                if k >= 0 {
                    &&& r == Some(es[k].1 as usize) && es[k].1 >= 0
                    &&& final(self).view_entries() == es.subrange(0, k).add(
                        es.subrange(k + 1, es.len() as int),
                    )
                } else {
                    r is None && *final(self) == *old(self)
                }
            }),
    {
        proof {
            lemma_tok_idx(self.view_entries(), token@);
        }
        let n = self.entries.len();
        let mut i: usize = 0;
        while i < n
            invariant
                n == self.entries@.len(),
                i <= n,
                self.entries == old(self).entries,
                forall|j: int| 0 <= j < i ==> (#[trigger] self.view_entries()[j]).0 != token@,
            decreases n - i,
        {
            let hit = {
                let e = &self.entries[i];
                e.0 == *token
            };
            if hit {
                proof {
                    lemma_tok_idx(self.view_entries(), token@);
                    let kk = tok_idx(self.view_entries(), token@);
                    assert(self.view_entries()[i as int].0 == token@);
                    if kk == -1 {
                        assert(false);
                    } else if kk < i {
                        assert(self.view_entries()[kk].0 == token@);
                        assert(false);
                    } else if kk > i {
                        assert(self.view_entries()[i as int].0 != token@);
                        assert(false);
                    }
                }
                let removed = self.entries.remove(i);
                proof {
                    let es = old(self).view_entries();
                    assert(final(self).view_entries() =~= es.subrange(0, i as int).add(
                        es.subrange(i + 1, es.len() as int),
                    ));
                }
                return Some(removed.1);
            }
            i = i + 1;
        }
        None
    }
}

/// Law: removing a token removes it from the table — a lookup after a
/// logout or a reap misses, and every other token's slot is untouched.
pub proof fn lemma_remove_token_gone(es: Seq<(Seq<char>, int)>, t: Seq<char>)
    requires
        table_wf(es),
        tok_idx(es, t) >= 0,
    ensures
        ({
            let k = tok_idx(es, t);
            let es2 = es.subrange(0, k).add(es.subrange(k + 1, es.len() as int));
            &&& spec_token_lookup(es2, t) is None
            &&& table_wf(es2)
            &&& forall|u: Seq<char>|
                u != t ==> #[trigger] spec_token_lookup(es2, u) == spec_token_lookup(es, u)
        }),
{
    let k = tok_idx(es, t);
    lemma_tok_idx(es, t);
    let es2 = es.subrange(0, k).add(es.subrange(k + 1, es.len() as int));
    assert(es2.len() == es.len() - 1);
    assert forall|i: int| 0 <= i < es2.len() implies #[trigger] es2[i] == (if i < k {
        es[i]
    } else {
        es[i + 1]
    }) by {
        if i < k {
            assert(es2[i] == es.subrange(0, k)[i]);
        } else {
            assert(es2[i] == es.subrange(k + 1, es.len() as int)[i - k]);
        }
    }
    // the token is on no remaining entry
    assert forall|i: int| 0 <= i < es2.len() implies (#[trigger] es2[i]).0 != t by {
        if i < k {
        } else {
            assert(es2[i] == es[i + 1]);
        }
    }
    lemma_tok_idx(es2, t);
    if tok_idx(es2, t) >= 0 {
        assert(es2[tok_idx(es2, t)].0 == t);
        assert(false);
    }
    assert(table_wf(es2));
    // other tokens keep their slots
    assert forall|u: Seq<char>|
        u != t implies #[trigger] spec_token_lookup(es2, u) == spec_token_lookup(es, u) by {
        lemma_tok_idx(es, u);
        lemma_tok_idx(es2, u);
        let a = tok_idx(es, u);
        let b = tok_idx(es2, u);
        if a == -1 {
            if b >= 0 {
                assert(es2[b].0 == u);
                if b < k {
                    assert(es[b].0 == u);
                } else {
                    assert(es[b + 1].0 == u);
                }
                assert(false);
            }
        } else {
            assert(es[a].0 == u);
            assert(a != k);
            let a2 = if a < k {
                a
            } else {
                a - 1
            };
            assert(es2[a2].0 == u);
            if b == -1 {
                assert(es2[a2].0 != u);
                assert(false);
            }
            assert(es2[b].0 == u);
            // the entries carrying u are unique, so b names the same entry
            let borig = if b < k {
                b
            } else {
                b + 1
            };
            assert(es[borig].0 == u);
            if borig != a {
                assert(es[borig].0 != es[a].0 || borig == a);
                assert(false);
            }
            assert(es2[b].1 == es[a].1);
        }
    }
}

/// Messages forwarded by the manager: each one whose token is live goes
/// to that token's slot, in arrival order.
pub open spec fn forwarded(
    table: Seq<(Seq<char>, int)>,
    msgs: Seq<(Seq<char>, Seq<char>)>,
) -> Seq<(int, Seq<char>)>
    decreases msgs.len(),
{
    if msgs.len() == 0 {
        Seq::<(int, Seq<char>)>::empty()
    } else {
        forwarded(table, msgs.drop_last()) + (match spec_token_lookup(table, msgs.last().0) {
            Some(s) => seq![(s, msgs.last().1)],
            None => Seq::<(int, Seq<char>)>::empty(),
        })
    }
}

/// The payloads that reached one slot, in order.
pub open spec fn to_slot(fwd: Seq<(int, Seq<char>)>, slot: int) -> Seq<Seq<char>>
    decreases fwd.len(),
{
    if fwd.len() == 0 {
        Seq::<Seq<char>>::empty()
    } else {
        to_slot(fwd.drop_last(), slot) + (if fwd.last().0 == slot {
            seq![fwd.last().1]
        } else {
            Seq::<Seq<char>>::empty()
        })
    }
}

/// The payloads one token sent, in order.
pub open spec fn of_token(msgs: Seq<(Seq<char>, Seq<char>)>, tok: Seq<char>) -> Seq<Seq<char>>
    decreases msgs.len(),
{
    if msgs.len() == 0 {
        Seq::<Seq<char>>::empty()
    } else {
        of_token(msgs.drop_last(), tok) + (if msgs.last().0 == tok {
            seq![msgs.last().1]
        } else {
            Seq::<Seq<char>>::empty()
        })
    }
}

/// With unique slots, only one token reaches a given slot.
pub proof fn lemma_slot_owner(es: Seq<(Seq<char>, int)>, tok: Seq<char>, slot: int)
    requires
        table_wf(es),
        spec_token_lookup(es, tok) == Some(slot),
    ensures
        forall|u: Seq<char>| #[trigger]
            spec_token_lookup(es, u) == Some(slot) ==> u == tok,
{
    lemma_tok_idx(es, tok);
    let k = tok_idx(es, tok);
    assert forall|u: Seq<char>| #[trigger] spec_token_lookup(es, u) == Some(slot) implies u
        == tok by {
        lemma_tok_idx(es, u);
        let j = tok_idx(es, u);
        if j != k {
            assert(es[j].1 != es[k].1 || j == k);
            assert(false);
        }
    }
}

/// Law: messages stay in order per token.  For a live token, the run of
/// payloads its actor's slot receives is exactly the run of payloads
/// sent under that token, in the same order.
pub proof fn lemma_per_token_fifo(
    table: Seq<(Seq<char>, int)>,
    msgs: Seq<(Seq<char>, Seq<char>)>,
    tok: Seq<char>,
    slot: int,
)
    requires
        table_wf(table),
        spec_token_lookup(table, tok) == Some(slot),
    ensures
        to_slot(forwarded(table, msgs), slot) == of_token(msgs, tok),
    decreases msgs.len(),
{
    lemma_slot_owner(table, tok, slot);
    if msgs.len() == 0 {
    } else {
        lemma_per_token_fifo(table, msgs.drop_last(), tok, slot);
        let m = msgs.last();
        let fwd = forwarded(table, msgs);
        match spec_token_lookup(table, m.0) {
            Some(s) => {
                assert(fwd == forwarded(table, msgs.drop_last()) + seq![(s, m.1)]);
                assert(fwd.drop_last() =~= forwarded(table, msgs.drop_last()));
                assert(fwd.last() == (s, m.1));
                if m.0 == tok {
                    assert(s == slot);
                    assert(to_slot(fwd, slot) =~= of_token(msgs, tok));
                } else {
                    assert(spec_token_lookup(table, m.0) == Some(s));
                    if s == slot {
                        assert(m.0 == tok);
                        assert(false);
                    }
                    assert(to_slot(fwd, slot) =~= of_token(msgs, tok));
                }
            },
            None => {
                assert(fwd =~= forwarded(table, msgs.drop_last()));
                if m.0 == tok {
                    assert(false);
                }
                assert(to_slot(fwd, slot) =~= of_token(msgs, tok));
            },
        }
    }
}

} // verus!
