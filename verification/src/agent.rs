//! The agent: its audit log, its tokens and its state.

use vstd::prelude::*;
use vstd::string::StringExecFns;
use crate::json::Json;
use crate::json::JsonView;
use crate::json::list_field;
use crate::json::text;
use crate::json::views;
use crate::lists::copy_texts;
use crate::lists::push_text;
use crate::tables::cells;
use crate::tables::push_row;
use crate::tables::row2;
use crate::tables::row5;
use crate::text::cat2;
use crate::text::decimal;
use crate::text::empty_text;
use crate::text::join;
use crate::text::joined;
use crate::text::number;
use crate::text::opt_str;
use crate::text::quoted;
use crate::text::quoted_form;
use crate::text::same;
use crate::text::texts;

verus! {

/// An entry of the audit log.
#[derive(Debug)]
pub struct AuditEntry {
    /// When.
    pub time: String,
    /// Who asked.
    pub caller: String,
    /// By which method.
    pub method: String,
    /// For which path.
    pub path: String,
    /// What was answered.
    pub status: u16,
    /// More about it.
    pub detail: Option<String>,
}

/// The row of an entry of the audit log.
pub open spec fn audit_cells(entry: AuditEntry) -> Seq<Seq<char>> {
    seq![
        entry.time@,
        entry.caller@,
        entry.method@,
        entry.path@,
        decimal(entry.status as int),
        match entry.detail {
            Some(detail) => detail@,
            None => Seq::empty(),
        },
    ]
}

/// The entries of a caller, or all.
pub open spec fn of_caller(entries: Seq<AuditEntry>, caller: Option<Seq<char>>) -> Seq<AuditEntry> {
    match caller {
        Some(name) => entries.filter(|entry: AuditEntry| entry.caller@ == name),
        None => entries,
    }
}

/// The last so many entries, or all.
pub open spec fn tail_of(entries: Seq<AuditEntry>, tail: Option<usize>) -> Seq<AuditEntry> {
    match tail {
        Some(n) => if entries.len() > n {
            entries.subrange(entries.len() - n, entries.len() as int)
        } else {
            entries
        },
        None => entries,
    }
}

/// The rows of entries.
pub open spec fn audit_table(entries: Seq<AuditEntry>) -> Seq<Seq<Seq<char>>> {
    entries.map_values(|entry: AuditEntry| audit_cells(entry))
}

fn audit_row(entry: &AuditEntry) -> (row: Vec<String>)
    ensures
        texts(row@) == audit_cells(*entry),
{
    let detail = match &entry.detail {
        Some(detail) => detail.clone(),
        None => empty_text(),
    };
    let mut row = row5(
        entry.time.clone(),
        entry.caller.clone(),
        entry.method.clone(),
        entry.path.clone(),
        number(entry.status as u64),
    );
    push_text(&mut row, detail);
    assert(texts(row@) =~= audit_cells(*entry));
    row
}

fn is_callers(entry: &AuditEntry, caller: Option<&str>) -> (yes: bool)
    ensures
        yes == (caller matches Some(name) ==> entry.caller@ == name@),
{
    match caller {
        Some(name) => same(entry.caller.as_str(), name),
        None => true,
    }
}

/// The rows of the audit log: of one caller, if it is named, and then the last
/// so many of them, if a number is given.
pub fn audit_rows(entries: &Vec<AuditEntry>, tail: Option<usize>, caller: Option<&str>) -> (rows: Vec<
    Vec<String>,
>)
    ensures
        cells(rows@) == audit_table(tail_of(of_caller(entries@, opt_str(caller)), tail)),
{
    let mut rows: Vec<Vec<String>> = Vec::new();
    let ghost all = entries@;
    let ghost keep = |entry: AuditEntry| caller matches Some(name) ==> entry.caller@ == name@;
    let mut i: usize = 0;
    proof {
        reveal(Seq::filter);
        assert(all.subrange(0, 0) =~= Seq::<AuditEntry>::empty());
        assert(cells(rows@) =~= audit_table(all.subrange(0, 0).filter(keep)));
    }
    while i < entries.len()
        invariant
            i <= entries@.len(),
            all == entries@,
            keep == (|entry: AuditEntry| caller matches Some(name) ==> entry.caller@ == name@),
            cells(rows@) == audit_table(all.subrange(0, i as int).filter(keep)),
        decreases entries.len() - i,
    {
        let ghost front = all.subrange(0, i as int);
        proof {
            let next = all.subrange(0, i + 1);
            assert(next.drop_last() =~= front);
            assert(next.last() == entries@[i as int]);
            reveal(Seq::filter);
        }
        if is_callers(&entries[i], caller) {
            let ghost known = front.filter(keep);
            push_row(&mut rows, audit_row(&entries[i]));
            assert(cells(rows@) =~= audit_table(known.push(entries@[i as int])));
        }
        i = i + 1;
    }
    proof {
        assert(all.subrange(0, i as int) =~= all);
        lemma_of_caller(all, caller);
    }
    let ghost kept = of_caller(all, opt_str(caller));
    assert(rows@.len() == cells(rows@).len());
    if let Some(n) = tail {
        if rows.len() > n {
            let mut last: Vec<Vec<String>> = Vec::new();
            let start: usize = rows.len() - n;
            let mut k: usize = start;
            let ghost want = cells(rows@);
            assert(cells(last@) =~= want.subrange(start as int, start as int));
            while k < rows.len()
                invariant
                    start <= k <= rows@.len(),
                    want == cells(rows@),
                    cells(last@) == want.subrange(start as int, k as int),
                decreases rows.len() - k,
            {
                let row = copy_texts(&rows[k]);
                push_row(&mut last, row);
                k = k + 1;
                assert(cells(last@) =~= want.subrange(start as int, k as int));
            }
            assert(cells(last@) =~= audit_table(tail_of(kept, tail)));
            return last;
        }
    }
    rows
}


proof fn lemma_of_caller(entries: Seq<AuditEntry>, caller: Option<&str>)
    ensures
        entries.filter(|entry: AuditEntry| caller matches Some(name) ==> entry.caller@ == name@)
            == of_caller(entries, opt_str(caller)),
    decreases entries.len(),
{
    reveal(Seq::filter);
    if entries.len() > 0 {
        lemma_of_caller(entries.drop_last(), caller);
        if caller is None {
            assert(entries.drop_last().push(entries.last()) =~= entries);
        }
    } else {
        assert(entries =~= Seq::<AuditEntry>::empty());
    }
}

/// A token of an app, without the token itself.
#[derive(Debug)]
pub struct TokenRecord {
    /// What it is called.
    pub label: String,
    /// What it allows.
    pub scopes: Vec<String>,
    /// The account that it is bound to.
    pub account: Option<String>,
    /// Until when it is good.
    pub expires: Option<String>,
    /// Since when it is there.
    pub created: String,
}

/// The row of a token.
pub open spec fn token_cells(record: TokenRecord) -> Seq<Seq<char>> {
    seq![
        record.label@,
        joined(texts(record.scopes@), ","@),
        match record.account {
            Some(account) => account@,
            None => "-"@,
        },
        match record.expires {
            Some(time) => time@,
            None => "never"@,
        },
        record.created@,
    ]
}

/// The rows of tokens.
pub fn token_rows(records: &Vec<TokenRecord>) -> (rows: Vec<Vec<String>>)
    ensures
        cells(rows@) == records@.map_values(|record: TokenRecord| token_cells(record)),
{
    let mut rows: Vec<Vec<String>> = Vec::new();
    let ghost want = records@.map_values(|record: TokenRecord| token_cells(record));
    let mut i: usize = 0;
    assert(cells(rows@) =~= want.subrange(0, 0));
    while i < records.len()
        invariant
            i <= records@.len(),
            want == records@.map_values(|record: TokenRecord| token_cells(record)),
            cells(rows@) == want.subrange(0, i as int),
        decreases records.len() - i,
    {
        let record = &records[i];
        let account = match &record.account {
            Some(account) => account.clone(),
            None => String::from_str("-"),
        };
        let expires = match &record.expires {
            Some(time) => time.clone(),
            None => String::from_str("never"),
        };
        let row = row5(
            record.label.clone(),
            join(&record.scopes, ","),
            account,
            expires,
            record.created.clone(),
        );
        assert(texts(row@) =~= token_cells(*record));
        push_row(&mut rows, row);
        i = i + 1;
        assert(cells(rows@) =~= want.subrange(0, i as int));
    }
    assert(want.subrange(0, i as int) =~= want);
    rows
}

/// What is said of a token that was to be revoked, and whether that worked.
pub fn revoke_line(label: &str, revoked: bool) -> (line: Result<String, String>)
    ensures
        match line {
            Ok(text) => revoked && text@ == "revoked token "@ + quoted_form(label@),
            Err(text) => !revoked && text@ == "no token named "@ + quoted_form(label@),
        },
{
    if revoked {
        Ok(cat2("revoked token ", quoted(label).as_str()))
    } else {
        Err(cat2("no token named ", quoted(label).as_str()))
    }
}

/// The texts in a list; what is no text is passed over.
pub open spec fn texts_in(list: Seq<JsonView>) -> Seq<Seq<char>>
    decreases list.len(),
{
    if list.len() == 0 {
        Seq::empty()
    } else {
        match text(list.last()) {
            Some(found) => texts_in(list.drop_last()).push(found),
            None => texts_in(list.drop_last()),
        }
    }
}

/// The accounts that the agent holds open, by its answer; a dash where there
/// are none.
pub open spec fn unlocked_of(body: JsonView) -> Seq<char> {
    let names = match list_field(body, "unlocked_accounts"@) {
        Some(list) => joined(texts_in(list), ", "@),
        None => Seq::empty(),
    };
    if names.len() == 0 {
        "-"@
    } else {
        names
    }
}

fn unlocked(body: &Json) -> (names: String)
    ensures
        names@ == unlocked_of(body@),
{
    let list = match body.get_array("unlocked_accounts") {
        Some(list) => list,
        None => {
            return String::from_str("-");
        },
    };
    let ghost all = views(list@);
    let mut found: Vec<String> = Vec::new();
    let mut i: usize = 0;
    assert(texts(found@) =~= texts_in(all.subrange(0, 0)));
    while i < list.len()
        invariant
            i <= list@.len(),
            all == views(list@),
            texts(found@) == texts_in(all.subrange(0, i as int)),
        decreases list.len() - i,
    {
        assert(all.subrange(0, i + 1).drop_last() =~= all.subrange(0, i as int));
        assert(all.subrange(0, i + 1).last() == list@[i as int]@);
        if let Some(name) = list[i].as_str() {
            push_text(&mut found, String::from_str(name));
        }
        i = i + 1;
    }
    assert(all.subrange(0, i as int) =~= all);
    let names = join(&found, ", ");
    if names.as_str().is_empty() {
        String::from_str("-")
    } else {
        names
    }
}

/// The lines that tell the state of the agent. What it says of itself counts
/// only while it runs.
pub open spec fn status_cells(
    running: bool,
    pid: Option<u32>,
    socket: Seq<char>,
    answer: Option<JsonView>,
) -> Seq<Seq<Seq<char>>> {
    seq![
        seq![
            "status"@,
            if running {
                "running"@
            } else {
                "stopped"@
            },
        ],
        seq![
            "pid"@,
            if running && pid is Some {
                decimal(pid->Some_0 as int)
            } else {
                "-"@
            },
        ],
        seq!["socket"@, socket],
    ] + (if running && answer is Some {
        seq![seq!["unlocked accounts"@, unlocked_of(answer->Some_0)]]
    } else {
        Seq::empty()
    })
}

/// The lines that tell the state of the agent.
pub fn status_rows(running: bool, pid: Option<u32>, socket: &str, answer: Option<&Json>) -> (rows: Vec<
    Vec<String>,
>)
    ensures
        cells(rows@) == status_cells(
            running,
            pid,
            socket@,
            match answer {
                Some(body) => Some(body@),
                None => None,
            },
        ),
{
    let mut rows: Vec<Vec<String>> = Vec::new();
    let state = if running {
        "running"
    } else {
        "stopped"
    };
    push_row(&mut rows, row2(String::from_str("status"), String::from_str(state)));
    let shown = match pid {
        Some(n) => if running {
            number(n as u64)
        } else {
            String::from_str("-")
        },
        None => String::from_str("-"),
    };
    push_row(&mut rows, row2(String::from_str("pid"), shown));
    push_row(&mut rows, row2(String::from_str("socket"), String::from_str(socket)));
    if running {
        if let Some(body) = answer {
            push_row(&mut rows, row2(String::from_str("unlocked accounts"), unlocked(body)));
        }
    }
    assert(cells(rows@) =~= status_cells(
        running,
        pid,
        socket@,
        match answer {
            Some(body) => Some(body@),
            None => None,
        },
    ));
    rows
}

/// The log of a caller holds every entry of that caller, in order, and no other.
pub proof fn law_callers_see_their_entries(
    entries: Seq<AuditEntry>,
    name: Seq<char>,
    entry: AuditEntry,
)
    ensures
        of_caller(entries, Some(name)).contains(entry) <==> entries.contains(entry)
            && entry.caller@ == name,
        of_caller(entries, None) == entries,
        of_caller(entries.push(entry), Some(name)) == if entry.caller@ == name {
            of_caller(entries, Some(name)).push(entry)
        } else {
            of_caller(entries, Some(name))
        },
{
    crate::lists::lemma_filtered(entries, |e: AuditEntry| e.caller@ == name, entry);
    reveal(Seq::filter);
    assert(entries.push(entry).drop_last() =~= entries);
}

/// The tail of a log is its last entries, as many as are asked for, or all where
/// there are no more.
pub proof fn law_tails_are_the_last_entries(entries: Seq<AuditEntry>, n: usize, i: int)
    ensures
        tail_of(entries, None) == entries,
        tail_of(entries, Some(n)).len() == if entries.len() < n {
            entries.len() as int
        } else {
            n as int
        },
        0 <= i < tail_of(entries, Some(n)).len() ==> tail_of(entries, Some(n))[i]
            == entries[entries.len() - tail_of(entries, Some(n)).len() + i],
{
}

/// The rows of the log and of the tokens show each property in its column.
pub proof fn law_agent_rows_show_each_property(entry: AuditEntry, record: TokenRecord)
    ensures
        audit_cells(entry).len() == 6,
        audit_cells(entry)[0] == entry.time@,
        audit_cells(entry)[1] == entry.caller@,
        audit_cells(entry)[2] == entry.method@,
        audit_cells(entry)[3] == entry.path@,
        audit_cells(entry)[4] == decimal(entry.status as int),
        entry.detail matches Some(text) ==> audit_cells(entry)[5] == text@,
        entry.detail is None ==> audit_cells(entry)[5].len() == 0,
        token_cells(record).len() == 5,
        token_cells(record)[0] == record.label@,
        token_cells(record)[1] == joined(texts(record.scopes@), ","@),
        record.account matches Some(text) ==> token_cells(record)[2] == text@,
        record.account is None ==> token_cells(record)[2] == "-"@,
        record.expires matches Some(text) ==> token_cells(record)[3] == text@,
        record.expires is None ==> token_cells(record)[3] == "never"@,
        token_cells(record)[4] == record.created@,
{
}

/// The state of the agent: what it says of itself counts only while it runs, and its
/// process is named only then.
pub proof fn law_a_stopped_agent_says_nothing(
    pid: Option<u32>,
    socket: Seq<char>,
    answer: Option<JsonView>,
)
    ensures
        status_cells(false, pid, socket, answer) == seq![
            seq!["status"@, "stopped"@],
            seq!["pid"@, "-"@],
            seq!["socket"@, socket],
        ],
        status_cells(true, pid, socket, answer)[0] == seq!["status"@, "running"@],
        pid matches Some(n) ==> status_cells(true, pid, socket, answer)[1] == seq![
            "pid"@,
            decimal(n as int),
        ],
        status_cells(true, pid, socket, answer)[2] == seq!["socket"@, socket],
        answer matches Some(body) ==> status_cells(true, pid, socket, answer).len() == 4
            && status_cells(true, pid, socket, answer)[3] == seq![
            "unlocked accounts"@,
            unlocked_of(body),
        ],
        answer is None ==> status_cells(true, pid, socket, answer).len() == 3,
{
    assert(status_cells(false, pid, socket, answer) =~= seq![
        seq!["status"@, "stopped"@],
        seq!["pid"@, "-"@],
        seq!["socket"@, socket],
    ]);
}

/// Every account that the agent names is told, in order.
pub proof fn law_unlocked_accounts_are_all_told(
    list: Seq<JsonView>,
    item: JsonView,
    name: Seq<char>,
)
    ensures
        texts_in(list.push(JsonView::Text(name))) == texts_in(list).push(name),
        !(item is Text) ==> texts_in(list.push(item)) == texts_in(list),
        texts_in(Seq::empty()).len() == 0,
{
    assert(list.push(JsonView::Text(name)).drop_last() =~= list);
    assert(list.push(item).drop_last() =~= list);
}

} // verus!
