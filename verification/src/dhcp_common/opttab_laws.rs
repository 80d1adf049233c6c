//! What holds of the tables of options: no name stands in them twice, and each name that is listed is found.

use super::opttab::{opttab6_rows, opttab_rows, row_named, shown, table_rows, Row};
use crate::text::lower;
use vstd::prelude::*;

verus! {

/// The number of the row of the DHCPv4 table that has a name, told by its length and some of its characters.
spec fn place4(s: Seq<char>) -> int {
    if s.len() == 2 {
        if s[1] == '1' {
            46
        } else {
            47
        }
    } else if s.len() == 3 {
        17
    } else if s.len() == 4 {
        61
    } else if s.len() == 6 {
        2
    } else if s.len() == 7 {
        if s[0] == 'n' {
            0
        } else if s[0] == 't' {
            26
        } else {
            44
        }
    } else if s.len() == 8 {
        6
    } else if s.len() == 9 {
        if s[0] == 'r' {
            10
        } else if s[0] == 'b' {
            19
        } else if s[0] == 'c' {
            49
        } else {
            70
        }
    } else if s.len() == 10 {
        if s[1] == 'n' {
            3
        } else if s[1] == 'o' {
            4
        } else if s[1] == 'p' {
            5
        } else if s[1] == 'i' {
            if s[0] == 'n' {
                if s[4] == 'd' {
                    28
                } else {
                    29
                }
            } else {
                74
            }
        } else if s[1] == 't' {
            30
        } else if s[1] == 'e' {
            if s[8] == 'n' {
                32
            } else if s[8] == 'd' {
                33
            } else {
                39
            }
        } else if s[1] == 'r' {
            58
        } else if s[1] == 's' {
            59
        } else {
            62
        }
    } else if s.len() == 11 {
        if s[1] == 'i' {
            if s[5] == 'o' {
                1
            } else if s[5] == 'd' {
                50
            } else {
                51
            }
        } else if s[1] == 'o' {
            if s[0] == 'd' {
                8
            } else {
                56
            }
        } else if s[1] == 'w' {
            9
        } else if s[1] == 'e' {
            16
        } else if s[1] == 'r' {
            24
        } else if s[1] == 'f' {
            52
        } else if s[1] == 'm' {
            55
        } else if s[1] == 'n' {
            57
        } else {
            65
        }
    } else if s.len() == 12 {
        if s[10] == 't' {
            22
        } else if s[10] == 'a' {
            31
        } else if s[10] == 'f' {
            36
        } else if s[10] == 'd' {
            37
        } else if s[10] == 'p' {
            41
        } else if s[10] == 's' {
            48
        } else {
            60
        }
    } else if s.len() == 13 {
        if s[2] == 'l' {
            14
        } else if s[2] == 'p' {
            27
        } else if s[2] == 't' {
            35
        } else if s[2] == 'o' {
            53
        } else if s[2] == 's' {
            64
        } else if s[2] == 'd' {
            69
        } else if s[2] == 'b' {
            72
        } else {
            73
        }
    } else if s.len() == 14 {
        if s[2] == 'o' {
            7
        } else if s[2] == 't' {
            11
        } else if s[2] == 'h' {
            25
        } else if s[2] == 'b' {
            54
        } else if s[2] == 's' {
            68
        } else {
            71
        }
    } else if s.len() == 15 {
        if s[0] == 'o' {
            40
        } else {
            76
        }
    } else if s.len() == 16 {
        if s[0] == 'r' {
            20
        } else if s[0] == 'n' {
            34
        } else if s[0] == 'm' {
            45
        } else {
            63
        }
    } else if s.len() == 17 {
        if s[0] == 'i' {
            12
        } else if s[0] == 'a' {
            18
        } else if s[0] == 'r' {
            38
        } else if s[0] == 's' {
            if s[8] == 'd' {
                42
            } else {
                78
            }
        } else if s[0] == 'p' {
            43
        } else {
            67
        }
    } else if s.len() == 19 {
        if s[0] == 'r' {
            21
        } else if s[0] == 'c' {
            66
        } else {
            77
        }
    } else if s.len() == 21 {
        23
    } else if s.len() == 22 {
        75
    } else if s.len() == 23 {
        15
    } else {
        13
    }
}

/// The number of the row of the DHCPv6 table that has a name, told by its length and some of its characters.
spec fn place6(s: Seq<char>) -> int {
    if s.len() == 3 {
        5
    } else if s.len() == 4 {
        23
    } else if s.len() == 5 {
        if s[3] == 'n' {
            2
        } else {
            3
        }
    } else if s.len() == 6 {
        if s[0] == 'i' {
            4
        } else {
            8
        }
    } else if s.len() == 7 {
        7
    } else if s.len() == 9 {
        if s[0] == 'c' {
            0
        } else {
            1
        }
    } else if s.len() == 10 {
        if s[0] == 'p' {
            6
        } else if s[0] == 'u' {
            10
        } else if s[0] == 's' {
            14
        } else if s[0] == 'd' {
            15
        } else {
            if s[1] == 'i' {
                if s[4] == 's' {
                    17
                } else {
                    19
                }
            } else {
                26
            }
        }
    } else if s.len() == 11 {
        if s[0] == 'v' {
            12
        } else if s[0] == 'n' {
            if s[5] == 's' {
                18
            } else {
                20
            }
        } else {
            21
        }
    } else if s.len() == 12 {
        if s[0] == 'r' {
            9
        } else if s[0] == 'v' {
            11
        } else {
            27
        }
    } else if s.len() == 13 {
        if s[0] == 'd' {
            16
        } else {
            25
        }
    } else if s.len() == 14 {
        if s[0] == 'p' {
            24
        } else if s[0] == 'b' {
            28
        } else {
            29
        }
    } else if s.len() == 17 {
        13
    } else {
        22
    }
}

/// The places of the names from number 0 on.
proof fn lemma_place4_0(i: int)
    requires
        0 <= i < 10,
    ensures
        place4(lower(opttab_rows()[i].name)) == i,
{
    if i == 0 {
        reveal_strlit("netmask");
    } else if i == 1 {
        reveal_strlit("time-offset");
    } else if i == 2 {
        reveal_strlit("router");
    } else if i == 3 {
        reveal_strlit("dns-server");
    } else if i == 4 {
        reveal_strlit("log-server");
    } else if i == 5 {
        reveal_strlit("lpr-server");
    } else if i == 6 {
        reveal_strlit("hostname");
    } else if i == 7 {
        reveal_strlit("boot-file-size");
    } else if i == 8 {
        reveal_strlit("domain-name");
    } else {
        reveal_strlit("swap-server");
    }
}

/// The places of the names from number 10 on.
proof fn lemma_place4_10(i: int)
    requires
        10 <= i < 20,
    ensures
        place4(lower(opttab_rows()[i].name)) == i,
{
    if i == 10 {
        reveal_strlit("root-path");
    } else if i == 11 {
        reveal_strlit("extension-path");
    } else if i == 12 {
        reveal_strlit("ip-forward-enable");
    } else if i == 13 {
        reveal_strlit("non-local-source-routing");
    } else if i == 14 {
        reveal_strlit("policy-filter");
    } else if i == 15 {
        reveal_strlit("max-datagram-reassembly");
    } else if i == 16 {
        reveal_strlit("default-ttl");
    } else if i == 17 {
        reveal_strlit("mtu");
    } else if i == 18 {
        reveal_strlit("all-subnets-local");
    } else {
        reveal_strlit("broadcast");
    }
}

/// The places of the names from number 20 on.
proof fn lemma_place4_20(i: int)
    requires
        20 <= i < 30,
    ensures
        place4(lower(opttab_rows()[i].name)) == i,
{
    if i == 20 {
        reveal_strlit("router-discovery");
    } else if i == 21 {
        reveal_strlit("router-solicitation");
    } else if i == 22 {
        reveal_strlit("static-route");
    } else if i == 23 {
        reveal_strlit("trailer-encapsulation");
    } else if i == 24 {
        reveal_strlit("arp-timeout");
    } else if i == 25 {
        reveal_strlit("ethernet-encap");
    } else if i == 26 {
        reveal_strlit("tcp-ttl");
    } else if i == 27 {
        reveal_strlit("tcp-keepalive");
    } else if i == 28 {
        reveal_strlit("nis-domain");
    } else {
        reveal_strlit("nis-server");
    }
}

/// The places of the names from number 30 on.
proof fn lemma_place4_30(i: int)
    requires
        30 <= i < 40,
    ensures
        place4(lower(opttab_rows()[i].name)) == i,
{
    if i == 30 {
        reveal_strlit("ntp-server");
    } else if i == 31 {
        reveal_strlit("vendor-encap");
    } else if i == 32 {
        reveal_strlit("netbios-ns");
    } else if i == 33 {
        reveal_strlit("netbios-dd");
    } else if i == 34 {
        reveal_strlit("netbios-nodetype");
    } else if i == 35 {
        reveal_strlit("netbios-scope");
    } else if i == 36 {
        reveal_strlit("x-windows-fs");
    } else if i == 37 {
        reveal_strlit("x-windows-dm");
    } else if i == 38 {
        reveal_strlit("requested-address");
    } else {
        reveal_strlit("lease-time");
    }
}

/// The places of the names from number 40 on.
proof fn lemma_place4_40(i: int)
    requires
        40 <= i < 50,
    ensures
        place4(lower(opttab_rows()[i].name)) == i,
{
    if i == 40 {
        reveal_strlit("option-overload");
    } else if i == 41 {
        reveal_strlit("message-type");
    } else if i == 42 {
        reveal_strlit("server-identifier");
    } else if i == 43 {
        reveal_strlit("parameter-request");
    } else if i == 44 {
        reveal_strlit("message");
    } else if i == 45 {
        reveal_strlit("max-message-size");
    } else if i == 46 {
        reveal_strlit("T1");
    } else if i == 47 {
        reveal_strlit("T2");
    } else if i == 48 {
        reveal_strlit("vendor-class");
    } else {
        reveal_strlit("client-id");
    }
}

/// The places of the names from number 50 on.
proof fn lemma_place4_50(i: int)
    requires
        50 <= i < 60,
    ensures
        place4(lower(opttab_rows()[i].name)) == i,
{
    if i == 50 {
        reveal_strlit("nis+-domain");
    } else if i == 51 {
        reveal_strlit("nis+-server");
    } else if i == 52 {
        reveal_strlit("tftp-server");
    } else if i == 53 {
        reveal_strlit("bootfile-name");
    } else if i == 54 {
        reveal_strlit("mobile-ip-home");
    } else if i == 55 {
        reveal_strlit("smtp-server");
    } else if i == 56 {
        reveal_strlit("pop3-server");
    } else if i == 57 {
        reveal_strlit("nntp-server");
    } else if i == 58 {
        reveal_strlit("irc-server");
    } else {
        reveal_strlit("user-class");
    }
}

/// The places of the names from number 60 on.
proof fn lemma_place4_60(i: int)
    requires
        60 <= i < 70,
    ensures
        place4(lower(opttab_rows()[i].name)) == i,
{
    if i == 60 {
        reveal_strlit("rapid-commit");
    } else if i == 61 {
        reveal_strlit("FQDN");
    } else if i == 62 {
        reveal_strlit("agent-info");
    } else if i == 63 {
        reveal_strlit("last-transaction");
    } else if i == 64 {
        reveal_strlit("associated-ip");
    } else if i == 65 {
        reveal_strlit("client-arch");
    } else if i == 66 {
        reveal_strlit("client-interface-id");
    } else if i == 67 {
        reveal_strlit("client-machine-id");
    } else if i == 68 {
        reveal_strlit("posix-timezone");
    } else {
        reveal_strlit("tzdb-timezone");
    }
}

/// The places of the names from number 70 on.
proof fn lemma_place4_70(i: int)
    requires
        70 <= i < 79,
    ensures
        place4(lower(opttab_rows()[i].name)) == i,
{
    if i == 70 {
        reveal_strlit("ipv6-only");
    } else if i == 71 {
        reveal_strlit("captive-portal");
    } else if i == 72 {
        reveal_strlit("subnet-select");
    } else if i == 73 {
        reveal_strlit("domain-search");
    } else if i == 74 {
        reveal_strlit("sip-server");
    } else if i == 75 {
        reveal_strlit("classless-static-route");
    } else if i == 76 {
        reveal_strlit("vendor-id-encap");
    } else if i == 77 {
        reveal_strlit("tftp-server-address");
    } else {
        reveal_strlit("server-ip-address");
    }
}

/// Each name of the table has its own place.
proof fn lemma_place4(i: int)
    requires
        0 <= i < opttab_rows().len(),
    ensures
        place4(lower(opttab_rows()[i].name)) == i,
{
    if i < 10 {
        lemma_place4_0(i);
    } else if i < 20 {
        lemma_place4_10(i);
    } else if i < 30 {
        lemma_place4_20(i);
    } else if i < 40 {
        lemma_place4_30(i);
    } else if i < 50 {
        lemma_place4_40(i);
    } else if i < 60 {
        lemma_place4_50(i);
    } else if i < 70 {
        lemma_place4_60(i);
    } else {
        lemma_place4_70(i);
    }
}

/// The places of the names from number 0 on.
proof fn lemma_place6_0(i: int)
    requires
        0 <= i < 10,
    ensures
        place6(lower(opttab6_rows()[i].name)) == i,
{
    if i == 0 {
        reveal_strlit("client-id");
    } else if i == 1 {
        reveal_strlit("server-id");
    } else if i == 2 {
        reveal_strlit("ia-na");
    } else if i == 3 {
        reveal_strlit("ia-ta");
    } else if i == 4 {
        reveal_strlit("iaaddr");
    } else if i == 5 {
        reveal_strlit("oro");
    } else if i == 6 {
        reveal_strlit("preference");
    } else if i == 7 {
        reveal_strlit("unicast");
    } else if i == 8 {
        reveal_strlit("status");
    } else {
        reveal_strlit("rapid-commit");
    }
}

/// The places of the names from number 10 on.
proof fn lemma_place6_10(i: int)
    requires
        10 <= i < 20,
    ensures
        place6(lower(opttab6_rows()[i].name)) == i,
{
    if i == 10 {
        reveal_strlit("user-class");
    } else if i == 11 {
        reveal_strlit("vendor-class");
    } else if i == 12 {
        reveal_strlit("vendor-opts");
    } else if i == 13 {
        reveal_strlit("sip-server-domain");
    } else if i == 14 {
        reveal_strlit("sip-server");
    } else if i == 15 {
        reveal_strlit("dns-server");
    } else if i == 16 {
        reveal_strlit("domain-search");
    } else if i == 17 {
        reveal_strlit("nis-server");
    } else if i == 18 {
        reveal_strlit("nis+-server");
    } else {
        reveal_strlit("nis-domain");
    }
}

/// The places of the names from number 20 on.
proof fn lemma_place6_20(i: int)
    requires
        20 <= i < 30,
    ensures
        place6(lower(opttab6_rows()[i].name)) == i,
{
    if i == 20 {
        reveal_strlit("nis+-domain");
    } else if i == 21 {
        reveal_strlit("sntp-server");
    } else if i == 22 {
        reveal_strlit("information-refresh-time");
    } else if i == 23 {
        reveal_strlit("FQDN");
    } else if i == 24 {
        reveal_strlit("posix-timezone");
    } else if i == 25 {
        reveal_strlit("tzdb-timezone");
    } else if i == 26 {
        reveal_strlit("ntp-server");
    } else if i == 27 {
        reveal_strlit("bootfile-url");
    } else if i == 28 {
        reveal_strlit("bootfile-param");
    } else {
        reveal_strlit("captive-portal");
    }
}

/// Each name of the table has its own place.
proof fn lemma_place6(i: int)
    requires
        0 <= i < opttab6_rows().len(),
    ensures
        place6(lower(opttab6_rows()[i].name)) == i,
{
    if i < 10 {
        lemma_place6_0(i);
    } else if i < 20 {
        lemma_place6_10(i);
    } else {
        lemma_place6_20(i);
    }
}

/// No two rows of a table have the same name, in upper or lower case.
pub proof fn law_option_names_differ(is_v6: bool, i: int, j: int)
    requires
        0 <= i < table_rows(is_v6).len(),
        0 <= j < table_rows(is_v6).len(),
        lower(table_rows(is_v6)[i].name) == lower(table_rows(is_v6)[j].name),
    ensures
        i == j,
{
    if is_v6 {
        lemma_place6(i);
        lemma_place6(j);
    } else {
        lemma_place4(i);
        lemma_place4(j);
    }
}

/// What is listed stands in the table.
proof fn lemma_shown(t: Seq<Row>, v: u16, n: Seq<char>) -> (i: int)
    requires
        shown(t).contains((v, n)),
    ensures
        0 <= i < t.len(),
        t[i].val == v,
        t[i].name == n,
    decreases t.len(),
{
    let last = t.len() - 1;
    if t.len() > 0 && shown(t.drop_last()).contains((v, n)) {
        lemma_shown(t.drop_last(), v, n)
    } else {
        let k = choose|k: int| 0 <= k < shown(t).len() && shown(t)[k] == (v, n);
        if k < shown(t.drop_last()).len() {
            assert(shown(t.drop_last())[k] == (v, n));
        }
        last
    }
}

/// A name that no other row has is found at its row.
proof fn lemma_row_named(t: Seq<Row>, name: Seq<char>, i: int, k: int)
    requires
        0 <= i <= k < t.len(),
        lower(t[k].name) == lower(name),
        forall|j: int| 0 <= j < k ==> lower((#[trigger] t[j]).name) != lower(name),
    ensures
        row_named(t, name, i) == Some(t[k]),
    decreases k - i,
{
    if i < k {
        lemma_row_named(t, name, i + 1, k);
    }
}

/// Every option that is listed is found by its name, in upper or lower case, with its own number.
pub proof fn law_listed_option_is_found(is_v6: bool, v: u16, n: Seq<char>, name: Seq<char>)
    requires
        shown(table_rows(is_v6)).contains((v, n)),
        lower(name) == lower(n),
    ensures
        row_named(table_rows(is_v6), name, 0) matches Some(e) && e.val == v && e.name == n,
{
    let t = table_rows(is_v6);
    let k = lemma_shown(t, v, n);
    assert forall|j: int| 0 <= j < k implies lower((#[trigger] t[j]).name) != lower(name) by {
        if lower(t[j].name) == lower(name) {
            law_option_names_differ(is_v6, j, k);
        }
    }
    lemma_row_named(t, name, 0, k);
}

} // verus!
