//! What stands under each column of a result row.
//!
//! A row is read back by the names of its columns, so every value has to stand under the
//! name that says what it is.
use crate::cli::{
    BandwidthPolicy, Batching, BondMode, Egress, Encryption, Ingress, Mode, Promotion, Runtime,
    WouldBlockPolicy,
};
use crate::config::BenchConfig;
use crate::record::{field_in, field_named};
use crate::results::{columns_text, values_record};
use crate::row::{
    ModelColumns, RunMeasurements, RunSurroundings, row_values, rows_are_as_wide_as_the_header,
};
use crate::text::{decimal, lemma_first_where};
use vstd::prelude::*;

verus! {

/// The place of a column, by the letters of its name.
spec fn column_place(s: Seq<char>) -> int {
    if s.len() == 3 {
        if s[0] == 'p' {
            16
        } else {
            64
        }
    } else if s.len() == 4 {
        if s[1] == 'o' {
            if s[0] == 'b' {
                39
            } else {
                2
            }
        } else {
            if s[0] == 'c' {
                15
            } else {
                77
            }
        }
    } else if s.len() == 5 {
        if s[0] == 's' {
            if s[4] == 'a' {
                70
            } else {
                71
            }
        } else {
            if s[0] == 'b' {
                7
            } else {
                34
            }
        }
    } else if s.len() == 6 {
        if s[0] == 'c' {
            6
        } else {
            if s[0] == 'e' {
                4
            } else {
                72
            }
        }
    } else if s.len() == 7 {
        if s[4] == 'e' {
            if s[0] == 'c' {
                38
            } else {
                if s[0] == 'i' {
                    3
                } else {
                    25
                }
            }
        } else {
            if s[0] == 'a' {
                65
            } else {
                0
            }
        }
    } else if s.len() == 8 {
        68
    } else if s.len() == 9 {
        if s[2] == 'n' {
            if s[0] == 'l' {
                if s[5] == 'l' {
                    19
                } else {
                    20
                }
            } else {
                33
            }
        } else {
            if s[4] == '_' {
                if s[0] == 'r' {
                    32
                } else {
                    67
                }
            } else {
                if s[0] == 'e' {
                    73
                } else {
                    5
                }
            }
        }
    } else if s.len() == 10 {
        if s[0] == 'c' {
            if s[1] == 'o' {
                if s[2] == 'n' {
                    37
                } else {
                    69
                }
            } else {
                75
            }
        } else {
            if s[0] == 'l' {
                if s[5] == 'd' {
                    17
                } else {
                    24
                }
            } else {
                if s[0] == 'e' {
                    1
                } else {
                    if s[0] == 's' {
                        40
                    } else {
                        79
                    }
                }
            }
        }
    } else if s.len() == 11 {
        if s[1] == 'e' {
            if s[0] == 'p' {
                76
            } else {
                if s[2] == 'c' {
                    8
                } else {
                    106
                }
            }
        } else {
            if s[2] == 't' {
                if s[0] == 'e' {
                    66
                } else {
                    41
                }
            } else {
                if s[0] == 'c' {
                    74
                } else {
                    if s[0] == 'l' {
                        18
                    } else {
                        110
                    }
                }
            }
        }
    } else if s.len() == 12 {
        if s[2] == 'c' {
            if s[9] == 'e' {
                if s[5] == 'i' {
                    28
                } else {
                    if s[5] == 'p' {
                        98
                    } else {
                        30
                    }
                }
            } else {
                if s[0] == 'r' {
                    26
                } else {
                    if s[4] == 'a' {
                        82
                    } else {
                        88
                    }
                }
            }
        } else {
            if s[0] == 's' {
                if s[5] == 'i' {
                    29
                } else {
                    if s[5] == 'r' {
                        27
                    } else {
                        31
                    }
                }
            } else {
                if s[0] == 'l' {
                    if s[5] == 'c' {
                        23
                    } else {
                        21
                    }
                } else {
                    80
                }
            }
        }
    } else if s.len() == 13 {
        if s[0] == 's' {
            if s[2] == 'c' {
                81
            } else {
                42
            }
        } else {
            if s[0] == 'l' {
                112
            } else {
                99
            }
        }
    } else if s.len() == 14 {
        if s[3] == 'r' {
            if s[0] == 'r' {
                111
            } else {
                36
            }
        } else {
            if s[0] == 'l' {
                22
            } else {
                78
            }
        }
    } else if s.len() == 15 {
        if s[0] == 's' {
            if s[2] == 'c' {
                if s[12] == 'c' {
                    86
                } else {
                    87
                }
            } else {
                if s[4] == 'i' {
                    43
                } else {
                    44
                }
            }
        } else {
            if s[1] == 'o' {
                if s[0] == 'l' {
                    35
                } else {
                    46
                }
            } else {
                if s[0] == 'd' {
                    95
                } else {
                    108
                }
            }
        }
    } else if s.len() == 16 {
        if s[0] == 'm' {
            if s[6] == 'p' {
                if s[7] == 'a' {
                    49
                } else {
                    45
                }
            } else {
                51
            }
        } else {
            if s[0] == 'd' {
                90
            } else {
                105
            }
        }
    } else if s.len() == 17 {
        if s[0] == 'm' {
            if s[6] == 'b' {
                54
            } else {
                47
            }
        } else {
            if s[0] == 's' {
                if s[1] == 'o' {
                    85
                } else {
                    83
                }
            } else {
                104
            }
        }
    } else if s.len() == 18 {
        if s[0] == 'd' {
            96
        } else {
            if s[0] == 'm' {
                52
            } else {
                9
            }
        }
    } else if s.len() == 19 {
        if s[0] == 'm' {
            50
        } else {
            if s[0] == 'r' {
                107
            } else {
                84
            }
        }
    } else if s.len() == 20 {
        if s[0] == 'd' {
            92
        } else {
            109
        }
    } else if s.len() == 21 {
        if s[0] == 'd' {
            if s[4] == 'g' {
                100
            } else {
                89
            }
        } else {
            if s[6] == 'a' {
                63
            } else {
                62
            }
        }
    } else if s.len() == 22 {
        if s[6] == 'h' {
            61
        } else {
            48
        }
    } else if s.len() == 23 {
        97
    } else if s.len() == 24 {
        if s[0] == 't' {
            if s[12] == '5' {
                101
            } else {
                if s[13] == '5' {
                    102
                } else {
                    103
                }
            }
        } else {
            if s[0] == 'd' {
                91
            } else {
                if s[0] == 'm' {
                    58
                } else {
                    10
                }
            }
        }
    } else if s.len() == 25 {
        if s[22] == 'm' {
            93
        } else {
            94
        }
    } else if s.len() == 27 {
        if s[6] == 'r' {
            53
        } else {
            if s[21] == 'r' {
                59
            } else {
                60
            }
        }
    } else if s.len() == 29 {
        55
    } else if s.len() == 31 {
        if s[5] == 'r' {
            if s[23] == 'a' {
                12
            } else {
                11
            }
        } else {
            if s[23] == 'a' {
                14
            } else {
                13
            }
        }
    } else if s.len() == 34 {
        56
    } else if s.len() == 37 {
        57
    } else {
        -1
    }
}

proof fn lemma_places_from_0()
    ensures
        forall|i: int|
            0 <= i < 19 ==> column_place(#[trigger] columns_text()[i]) == i,
{
    let all = columns_text();
    assert(column_place(all[0]) == 0) by {
        reveal_strlit("runtime");
        assert(all[0] == "runtime"@);
    }
    assert(column_place(all[1]) == 1) by {
        reveal_strlit("encryption");
        assert(all[1] == "encryption"@);
    }
    assert(column_place(all[2]) == 2) by {
        reveal_strlit("role");
        assert(all[2] == "role"@);
    }
    assert(column_place(all[3]) == 3) by {
        reveal_strlit("ingress");
        assert(all[3] == "ingress"@);
    }
    assert(column_place(all[4]) == 4) by {
        reveal_strlit("egress");
        assert(all[4] == "egress"@);
    }
    assert(column_place(all[5]) == 5) by {
        reveal_strlit("promotion");
        assert(all[5] == "promotion"@);
    }
    assert(column_place(all[6]) == 6) by {
        reveal_strlit("cookie");
        assert(all[6] == "cookie"@);
    }
    assert(column_place(all[7]) == 7) by {
        reveal_strlit("batch");
        assert(all[7] == "batch"@);
    }
    assert(column_place(all[8]) == 8) by {
        reveal_strlit("recv_rounds");
        assert(all[8] == "recv_rounds"@);
    }
    assert(column_place(all[9]) == 9) by {
        reveal_strlit("would_block_policy");
        assert(all[9] == "would_block_policy"@);
    }
    assert(column_place(all[10]) == 10) by {
        reveal_strlit("sock_buf_requested_bytes");
        assert(all[10] == "sock_buf_requested_bytes"@);
    }
    assert(column_place(all[11]) == 11) by {
        reveal_strlit("sock_rcvbuf_effective_min_bytes");
        assert(all[11] == "sock_rcvbuf_effective_min_bytes"@);
    }
    assert(column_place(all[12]) == 12) by {
        reveal_strlit("sock_rcvbuf_effective_max_bytes");
        assert(all[12] == "sock_rcvbuf_effective_max_bytes"@);
    }
    assert(column_place(all[13]) == 13) by {
        reveal_strlit("sock_sndbuf_effective_min_bytes");
        assert(all[13] == "sock_sndbuf_effective_min_bytes"@);
    }
    assert(column_place(all[14]) == 14) by {
        reveal_strlit("sock_sndbuf_effective_max_bytes");
        assert(all[14] == "sock_sndbuf_effective_max_bytes"@);
    }
    assert(column_place(all[15]) == 15) by {
        reveal_strlit("cpus");
        assert(all[15] == "cpus"@);
    }
    assert(column_place(all[16]) == 16) by {
        reveal_strlit("pin");
        assert(all[16] == "pin"@);
    }
    assert(column_place(all[17]) == 17) by {
        reveal_strlit("link_delay");
        assert(all[17] == "link_delay"@);
    }
    assert(column_place(all[18]) == 18) by {
        reveal_strlit("link_jitter");
        assert(all[18] == "link_jitter"@);
    }
}

proof fn lemma_places_from_19()
    ensures
        forall|i: int|
            19 <= i < 38 ==> column_place(#[trigger] columns_text()[i]) == i,
{
    let all = columns_text();
    assert(column_place(all[19]) == 19) by {
        reveal_strlit("link_loss");
        assert(all[19] == "link_loss"@);
    }
    assert(column_place(all[20]) == 20) by {
        reveal_strlit("link_rate");
        assert(all[20] == "link_rate"@);
    }
    assert(column_place(all[21]) == 21) by {
        reveal_strlit("link_reorder");
        assert(all[21] == "link_reorder"@);
    }
    assert(column_place(all[22]) == 22) by {
        reveal_strlit("link_duplicate");
        assert(all[22] == "link_duplicate"@);
    }
    assert(column_place(all[23]) == 23) by {
        reveal_strlit("link_corrupt");
        assert(all[23] == "link_corrupt"@);
    }
    assert(column_place(all[24]) == 24) by {
        reveal_strlit("link_limit");
        assert(all[24] == "link_limit"@);
    }
    assert(column_place(all[25]) == 25) by {
        reveal_strlit("workers");
        assert(all[25] == "workers"@);
    }
    assert(column_place(all[26]) == 26) by {
        reveal_strlit("recv_runtime");
        assert(all[26] == "recv_runtime"@);
    }
    assert(column_place(all[27]) == 27) by {
        reveal_strlit("send_runtime");
        assert(all[27] == "send_runtime"@);
    }
    assert(column_place(all[28]) == 28) by {
        reveal_strlit("recv_ingress");
        assert(all[28] == "recv_ingress"@);
    }
    assert(column_place(all[29]) == 29) by {
        reveal_strlit("send_ingress");
        assert(all[29] == "send_ingress"@);
    }
    assert(column_place(all[30]) == 30) by {
        reveal_strlit("recv_workers");
        assert(all[30] == "recv_workers"@);
    }
    assert(column_place(all[31]) == 31) by {
        reveal_strlit("send_workers");
        assert(all[31] == "send_workers"@);
    }
    assert(column_place(all[32]) == 32) by {
        reveal_strlit("recv_cpus");
        assert(all[32] == "recv_cpus"@);
    }
    assert(column_place(all[33]) == 33) by {
        reveal_strlit("send_cpus");
        assert(all[33] == "send_cpus"@);
    }
    assert(column_place(all[34]) == 34) by {
        reveal_strlit("conns");
        assert(all[34] == "conns"@);
    }
    assert(column_place(all[35]) == 35) by {
        reveal_strlit("logical_streams");
        assert(all[35] == "logical_streams"@);
    }
    assert(column_place(all[36]) == 36) by {
        reveal_strlit("source_streams");
        assert(all[36] == "source_streams"@);
    }
    assert(column_place(all[37]) == 37) by {
        reveal_strlit("connect_cc");
        assert(all[37] == "connect_cc"@);
    }
}

proof fn lemma_places_from_38()
    ensures
        forall|i: int|
            38 <= i < 57 ==> column_place(#[trigger] columns_text()[i]) == i,
{
    let all = columns_text();
    assert(column_place(all[38]) == 38) by {
        reveal_strlit("cc_peak");
        assert(all[38] == "cc_peak"@);
    }
    assert(column_place(all[39]) == 39) by {
        reveal_strlit("bond");
        assert(all[39] == "bond"@);
    }
    assert(column_place(all[40]) == 40) by {
        reveal_strlit("source_bps");
        assert(all[40] == "source_bps"@);
    }
    assert(column_place(all[41]) == 41) by {
        reveal_strlit("srt_bw_mode");
        assert(all[41] == "srt_bw_mode"@);
    }
    assert(column_place(all[42]) == 42) by {
        reveal_strlit("srt_maxbw_bps");
        assert(all[42] == "srt_maxbw_bps"@);
    }
    assert(column_place(all[43]) == 43) by {
        reveal_strlit("srt_inputbw_bps");
        assert(all[43] == "srt_inputbw_bps"@);
    }
    assert(column_place(all[44]) == 44) by {
        reveal_strlit("srt_oheadbw_pct");
        assert(all[44] == "srt_oheadbw_pct"@);
    }
    assert(column_place(all[45]) == 45) by {
        reveal_strlit("model_policy_rev");
        assert(all[45] == "model_policy_rev"@);
    }
    assert(column_place(all[46]) == 46) by {
        reveal_strlit("model_class_pre");
        assert(all[46] == "model_class_pre"@);
    }
    assert(column_place(all[47]) == 47) by {
        reveal_strlit("model_reasons_pre");
        assert(all[47] == "model_reasons_pre"@);
    }
    assert(column_place(all[48]) == 48) by {
        reveal_strlit("model_source_pps_total");
        assert(all[48] == "model_source_pps_total"@);
    }
    assert(column_place(all[49]) == 49) by {
        reveal_strlit("model_packet_pps");
        assert(all[49] == "model_packet_pps"@);
    }
    assert(column_place(all[50]) == 50) by {
        reveal_strlit("model_srt_total_bps");
        assert(all[50] == "model_srt_total_bps"@);
    }
    assert(column_place(all[51]) == 51) by {
        reveal_strlit("model_udp_ip_bps");
        assert(all[51] == "model_udp_ip_bps"@);
    }
    assert(column_place(all[52]) == 52) by {
        reveal_strlit("model_nic_wire_bps");
        assert(all[52] == "model_nic_wire_bps"@);
    }
    assert(column_place(all[53]) == 53) by {
        reveal_strlit("model_retransmission_factor");
        assert(all[53] == "model_retransmission_factor"@);
    }
    assert(column_place(all[54]) == 54) by {
        reveal_strlit("model_bdp_packets");
        assert(all[54] == "model_bdp_packets"@);
    }
    assert(column_place(all[55]) == 55) by {
        reveal_strlit("model_required_window_packets");
        assert(all[55] == "model_required_window_packets"@);
    }
    assert(column_place(all[56]) == 56) by {
        reveal_strlit("model_flow_window_headroom_packets");
        assert(all[56] == "model_flow_window_headroom_packets"@);
    }
}

proof fn lemma_places_from_57()
    ensures
        forall|i: int|
            57 <= i < 76 ==> column_place(#[trigger] columns_text()[i]) == i,
{
    let all = columns_text();
    assert(column_place(all[57]) == 57) by {
        reveal_strlit("model_receive_window_headroom_packets");
        assert(all[57] == "model_receive_window_headroom_packets"@);
    }
    assert(column_place(all[58]) == 58) by {
        reveal_strlit("model_recovery_margin_ms");
        assert(all[58] == "model_recovery_margin_ms"@);
    }
    assert(column_place(all[59]) == 59) by {
        reveal_strlit("model_socket_horizon_recv_s");
        assert(all[59] == "model_socket_horizon_recv_s"@);
    }
    assert(column_place(all[60]) == 60) by {
        reveal_strlit("model_socket_horizon_send_s");
        assert(all[60] == "model_socket_horizon_send_s"@);
    }
    assert(column_place(all[61]) == 61) by {
        reveal_strlit("model_host_utilization");
        assert(all[61] == "model_host_utilization"@);
    }
    assert(column_place(all[62]) == 62) by {
        reveal_strlit("model_nic_utilization");
        assert(all[62] == "model_nic_utilization"@);
    }
    assert(column_place(all[63]) == 63) by {
        reveal_strlit("model_admission_waves");
        assert(all[63] == "model_admission_waves"@);
    }
    assert(column_place(all[64]) == 64) by {
        reveal_strlit("rep");
        assert(all[64] == "rep"@);
    }
    assert(column_place(all[65]) == 65) by {
        reveal_strlit("attempt");
        assert(all[65] == "attempt"@);
    }
    assert(column_place(all[66]) == 66) by {
        reveal_strlit("established");
        assert(all[66] == "established"@);
    }
    assert(column_place(all[67]) == 67) by {
        reveal_strlit("torn_down");
        assert(all[67] == "torn_down"@);
    }
    assert(column_place(all[68]) == 68) by {
        reveal_strlit("pkt_sent");
        assert(all[68] == "pkt_sent"@);
    }
    assert(column_place(all[69]) == 69) by {
        reveal_strlit("core_total");
        assert(all[69] == "core_total"@);
    }
    assert(column_place(all[70]) == 70) by {
        reveal_strlit("sec_a");
        assert(all[70] == "sec_a"@);
    }
    assert(column_place(all[71]) == 71) by {
        reveal_strlit("sec_b");
        assert(all[71] == "sec_b"@);
    }
    assert(column_place(all[72]) == 72) by {
        reveal_strlit("rtt_ms");
        assert(all[72] == "rtt_ms"@);
    }
    assert(column_place(all[73]) == 73) by {
        reveal_strlit("elapsed_s");
        assert(all[73] == "elapsed_s"@);
    }
    assert(column_place(all[74]) == 74) by {
        reveal_strlit("cpu_user_ms");
        assert(all[74] == "cpu_user_ms"@);
    }
    assert(column_place(all[75]) == 75) by {
        reveal_strlit("cpu_sys_ms");
        assert(all[75] == "cpu_sys_ms"@);
    }
}

proof fn lemma_places_from_76()
    ensures
        forall|i: int|
            76 <= i < 95 ==> column_place(#[trigger] columns_text()[i]) == i,
{
    let all = columns_text();
    assert(column_place(all[76]) == 76) by {
        reveal_strlit("peak_rss_kb");
        assert(all[76] == "peak_rss_kb"@);
    }
    assert(column_place(all[77]) == 77) by {
        reveal_strlit("secs");
        assert(all[77] == "secs"@);
    }
    assert(column_place(all[78]) == 78) by {
        reveal_strlit("udp_rcvbuf_err");
        assert(all[78] == "udp_rcvbuf_err"@);
    }
    assert(column_place(all[79]) == 79) by {
        reveal_strlit("udp_in_err");
        assert(all[79] == "udp_in_err"@);
    }
    assert(column_place(all[80]) == 80) by {
        reveal_strlit("udp_no_ports");
        assert(all[80] == "udp_no_ports"@);
    }
    assert(column_place(all[81]) == 81) by {
        reveal_strlit("src_generated");
        assert(all[81] == "src_generated"@);
    }
    assert(column_place(all[82]) == 82) by {
        reveal_strlit("src_accepted");
        assert(all[82] == "src_accepted"@);
    }
    assert(column_place(all[83]) == 83) by {
        reveal_strlit("src_refusal_polls");
        assert(all[83] == "src_refusal_polls"@);
    }
    assert(column_place(all[84]) == 84) by {
        reveal_strlit("src_blocked_streaks");
        assert(all[84] == "src_blocked_streaks"@);
    }
    assert(column_place(all[85]) == 85) by {
        reveal_strlit("source_backlog_ms");
        assert(all[85] == "source_backlog_ms"@);
    }
    assert(column_place(all[86]) == 86) by {
        reveal_strlit("src_backlog_cap");
        assert(all[86] == "src_backlog_cap"@);
    }
    assert(column_place(all[87]) == 87) by {
        reveal_strlit("src_backlog_hwm");
        assert(all[87] == "src_backlog_hwm"@);
    }
    assert(column_place(all[88]) == 88) by {
        reveal_strlit("src_overflow");
        assert(all[88] == "src_overflow"@);
    }
    assert(column_place(all[89]) == 89) by {
        reveal_strlit("datapath_q_horizon_ms");
        assert(all[89] == "datapath_q_horizon_ms"@);
    }
    assert(column_place(all[90]) == 90) by {
        reveal_strlit("datapath_q_count");
        assert(all[90] == "datapath_q_count"@);
    }
    assert(column_place(all[91]) == 91) by {
        reveal_strlit("datapath_q_cap_per_queue");
        assert(all[91] == "datapath_q_cap_per_queue"@);
    }
    assert(column_place(all[92]) == 92) by {
        reveal_strlit("datapath_q_total_cap");
        assert(all[92] == "datapath_q_total_cap"@);
    }
    assert(column_place(all[93]) == 93) by {
        reveal_strlit("datapath_q_peak_depth_max");
        assert(all[93] == "datapath_q_peak_depth_max"@);
    }
    assert(column_place(all[94]) == 94) by {
        reveal_strlit("datapath_q_peak_depth_sum");
        assert(all[94] == "datapath_q_peak_depth_sum"@);
    }
}

proof fn lemma_places_from_95()
    ensures
        forall|i: int|
            95 <= i < 113 ==> column_place(#[trigger] columns_text()[i]) == i,
{
    let all = columns_text();
    assert(column_place(all[95]) == 95) by {
        reveal_strlit("datapath_q_full");
        assert(all[95] == "datapath_q_full"@);
    }
    assert(column_place(all[96]) == 96) by {
        reveal_strlit("datapath_q_dropped");
        assert(all[96] == "datapath_q_dropped"@);
    }
    assert(column_place(all[97]) == 97) by {
        reveal_strlit("datapath_q_disconnected");
        assert(all[97] == "datapath_q_disconnected"@);
    }
    assert(column_place(all[98]) == 98) by {
        reveal_strlit("recv_packets");
        assert(all[98] == "recv_packets"@);
    }
    assert(column_place(all[99]) == 99) by {
        reveal_strlit("recv_syscalls");
        assert(all[99] == "recv_syscalls"@);
    }
    assert(column_place(all[100]) == 100) by {
        reveal_strlit("datagrams_per_syscall");
        assert(all[100] == "datagrams_per_syscall"@);
    }
    assert(column_place(all[101]) == 101) by {
        reveal_strlit("timer_late_p50_bucket_us");
        assert(all[101] == "timer_late_p50_bucket_us"@);
    }
    assert(column_place(all[102]) == 102) by {
        reveal_strlit("timer_late_p95_bucket_us");
        assert(all[102] == "timer_late_p95_bucket_us"@);
    }
    assert(column_place(all[103]) == 103) by {
        reveal_strlit("timer_late_p99_bucket_us");
        assert(all[103] == "timer_late_p99_bucket_us"@);
    }
    assert(column_place(all[104]) == 104) by {
        reveal_strlit("timer_late_max_us");
        assert(all[104] == "timer_late_max_us"@);
    }
    assert(column_place(all[105]) == 105) by {
        reveal_strlit("retry_horizon_ms");
        assert(all[105] == "retry_horizon_ms"@);
    }
    assert(column_place(all[106]) == 106) by {
        reveal_strlit("retry_count");
        assert(all[106] == "retry_count"@);
    }
    assert(column_place(all[107]) == 107) by {
        reveal_strlit("retry_cap_per_queue");
        assert(all[107] == "retry_cap_per_queue"@);
    }
    assert(column_place(all[108]) == 108) by {
        reveal_strlit("retry_total_cap");
        assert(all[108] == "retry_total_cap"@);
    }
    assert(column_place(all[109]) == 109) by {
        reveal_strlit("retry_peak_depth_max");
        assert(all[109] == "retry_peak_depth_max"@);
    }
    assert(column_place(all[110]) == 110) by {
        reveal_strlit("would_block");
        assert(all[110] == "would_block"@);
    }
    assert(column_place(all[111]) == 111) by {
        reveal_strlit("retry_overflow");
        assert(all[111] == "retry_overflow"@);
    }
    assert(column_place(all[112]) == 112) by {
        reveal_strlit("local_dropped");
        assert(all[112] == "local_dropped"@);
    }
}

/// No column is listed twice.
proof fn lemma_columns_distinct()
    ensures
        columns_text().len() == 113,
        forall|i: int| 0 <= i < columns_text().len() ==> column_place(#[trigger] columns_text()[i]) == i,
{
    lemma_places_from_0();
    lemma_places_from_19();
    lemma_places_from_38();
    lemma_places_from_57();
    lemma_places_from_76();
    lemma_places_from_95();
}

/// A row that is as wide as the header gives back under each column what was put there.
pub proof fn columns_give_their_values(values: Seq<Seq<char>>, i: int)
    requires
        values.len() == columns_text().len(),
        0 <= i < values.len(),
    ensures
        field_in(values_record(values), columns_text()[i]) == Some(values[i]),
{
    let fields = values_record(values);
    let key = columns_text()[i];
    lemma_columns_distinct();
    assert forall|j: int| 0 <= j < i implies !field_named(key)(#[trigger] fields[j]) by {
        assert(fields[j].0 == columns_text()[j]);
        assert(column_place(columns_text()[j]) == j);
        assert(column_place(columns_text()[i]) == i);
    }
    assert(field_named(key)(fields[i]));
    lemma_first_where(fields, field_named(key), i);
}

/// A row says under each column of its topology what the endpoints were configured with.
pub proof fn rows_say_how_the_endpoints_were_configured(
    cfg: BenchConfig,
    rep: usize,
    m: RunMeasurements,
    model: ModelColumns,
    env: RunSurroundings,
)
    ensures
        ({
            let row = values_record(row_values(cfg, rep, m, model, env));
            &&& field_in(row, "runtime"@) == Some(match cfg.runtime {
                Runtime::Mio => "mio"@,
                Runtime::Tokio => "tokio"@,
                Runtime::Smol => "smol"@,
                Runtime::Monoio => "monoio"@,
                Runtime::Glommio => "glommio"@,
                Runtime::Compio => "compio"@,
            })
            &&& field_in(row, "encryption"@) == Some(match cfg.encryption {
                Encryption::Plain => "plain"@,
                Encryption::Aes128 => "128"@,
                Encryption::Aes192 => "192"@,
                Encryption::Aes256 => "256"@,
            })
            &&& field_in(row, "role"@) == Some(match cfg.mode {
                Mode::Sender => "caller"@,
                Mode::Receiver => "listener"@,
            })
            &&& field_in(row, "ingress"@) == Some(match cfg.ingress {
                Ingress::PerPort => "per-port"@,
                Ingress::SharedPool(k) => "shared-pool:"@ + decimal(k as nat),
                Ingress::ReuseportMulti(k) => "reuseport-multi:"@ + decimal(k as nat),
                Ingress::ReuseportSingle { workers } => "reuseport-single:"@ + decimal(workers as nat),
            })
            &&& field_in(row, "egress"@) == Some(match cfg.egress {
                Egress::PerConnection => "per-connection"@,
                Egress::SharedSocket => "shared-socket"@,
            })
            &&& field_in(row, "promotion"@) == Some(match cfg.promotion {
                Promotion::Never => "never"@,
                Promotion::Relocate => "relocate"@,
                Promotion::Bonded => "bonded"@,
                Promotion::All => "all"@,
            })
            &&& field_in(row, "cookie"@) == Some(if cfg.cookie_routing {
                "on"@
            } else {
                "off"@
            })
            &&& field_in(row, "batch"@) == Some(if cfg.batching == Batching::On {
                "on"@
            } else {
                "off"@
            })
            &&& field_in(row, "recv_rounds"@) == Some(decimal(cfg.recv_rounds as nat))
            &&& field_in(row, "would_block_policy"@) == Some(match cfg.would_block {
                WouldBlockPolicy::Retain => "retain"@,
                WouldBlockPolicy::Drop => "drop"@,
            })
            &&& field_in(row, "sock_buf_requested_bytes"@) == Some(decimal(cfg.sock_buf_bytes as nat))
            &&& field_in(row, "sock_rcvbuf_effective_min_bytes"@) == Some(if env.buffers.sockets > 0 {
                decimal(env.buffers.rcvbuf_min_bytes as nat)
            } else {
                Seq::empty()
            })
            &&& field_in(row, "sock_rcvbuf_effective_max_bytes"@) == Some(if env.buffers.sockets > 0 {
                decimal(env.buffers.rcvbuf_max_bytes as nat)
            } else {
                Seq::empty()
            })
            &&& field_in(row, "sock_sndbuf_effective_min_bytes"@) == Some(if env.buffers.sockets > 0 {
                decimal(env.buffers.sndbuf_min_bytes as nat)
            } else {
                Seq::empty()
            })
            &&& field_in(row, "sock_sndbuf_effective_max_bytes"@) == Some(if env.buffers.sockets > 0 {
                decimal(env.buffers.sndbuf_max_bytes as nat)
            } else {
                Seq::empty()
            })
            &&& field_in(row, "cpus"@) == Some(env.cpu_spec@)
            &&& field_in(row, "pin"@) == Some(if cfg.pin {
                "on"@
            } else {
                "off"@
            })
            &&& field_in(row, "link_delay"@) == Some(cfg.link.delay@)
            &&& field_in(row, "link_jitter"@) == Some(cfg.link.jitter@)
            &&& field_in(row, "link_loss"@) == Some(cfg.link.loss@)
            &&& field_in(row, "link_rate"@) == Some(cfg.link.rate@)
            &&& field_in(row, "link_reorder"@) == Some(cfg.link.reorder@)
            &&& field_in(row, "link_duplicate"@) == Some(cfg.link.duplicate@)
            &&& field_in(row, "link_corrupt"@) == Some(cfg.link.corrupt@)
            &&& field_in(row, "link_limit"@) == Some(cfg.link.limit@)
        }),
{
    let values = row_values(cfg, rep, m, model, env);
    rows_are_as_wide_as_the_header(cfg, rep, m, model, env);
    let all = columns_text();
    columns_give_their_values(values, 0);
    assert(all[0] == "runtime"@);
    columns_give_their_values(values, 1);
    assert(all[1] == "encryption"@);
    columns_give_their_values(values, 2);
    assert(all[2] == "role"@);
    columns_give_their_values(values, 3);
    assert(all[3] == "ingress"@);
    columns_give_their_values(values, 4);
    assert(all[4] == "egress"@);
    columns_give_their_values(values, 5);
    assert(all[5] == "promotion"@);
    columns_give_their_values(values, 6);
    assert(all[6] == "cookie"@);
    columns_give_their_values(values, 7);
    assert(all[7] == "batch"@);
    columns_give_their_values(values, 8);
    assert(all[8] == "recv_rounds"@);
    columns_give_their_values(values, 9);
    assert(all[9] == "would_block_policy"@);
    columns_give_their_values(values, 10);
    assert(all[10] == "sock_buf_requested_bytes"@);
    columns_give_their_values(values, 11);
    assert(all[11] == "sock_rcvbuf_effective_min_bytes"@);
    columns_give_their_values(values, 12);
    assert(all[12] == "sock_rcvbuf_effective_max_bytes"@);
    columns_give_their_values(values, 13);
    assert(all[13] == "sock_sndbuf_effective_min_bytes"@);
    columns_give_their_values(values, 14);
    assert(all[14] == "sock_sndbuf_effective_max_bytes"@);
    columns_give_their_values(values, 15);
    assert(all[15] == "cpus"@);
    columns_give_their_values(values, 16);
    assert(all[16] == "pin"@);
    columns_give_their_values(values, 17);
    assert(all[17] == "link_delay"@);
    columns_give_their_values(values, 18);
    assert(all[18] == "link_jitter"@);
    columns_give_their_values(values, 19);
    assert(all[19] == "link_loss"@);
    columns_give_their_values(values, 20);
    assert(all[20] == "link_rate"@);
    columns_give_their_values(values, 21);
    assert(all[21] == "link_reorder"@);
    columns_give_their_values(values, 22);
    assert(all[22] == "link_duplicate"@);
    columns_give_their_values(values, 23);
    assert(all[23] == "link_corrupt"@);
    columns_give_their_values(values, 24);
    assert(all[24] == "link_limit"@);
}

/// A row says under each column of its workload what the cell asked for.
pub proof fn rows_say_what_was_asked_for(
    cfg: BenchConfig,
    rep: usize,
    m: RunMeasurements,
    model: ModelColumns,
    env: RunSurroundings,
)
    ensures
        ({
            let row = values_record(row_values(cfg, rep, m, model, env));
            &&& field_in(row, "workers"@) == Some(decimal(cfg.workers as nat))
            &&& field_in(row, "recv_runtime"@) == Some(cfg.peer_topology.recv_runtime@)
            &&& field_in(row, "send_runtime"@) == Some(cfg.peer_topology.send_runtime@)
            &&& field_in(row, "recv_ingress"@) == Some(cfg.peer_topology.recv_ingress@)
            &&& field_in(row, "send_ingress"@) == Some(cfg.peer_topology.send_ingress@)
            &&& field_in(row, "recv_workers"@) == Some(cfg.peer_topology.recv_workers@)
            &&& field_in(row, "send_workers"@) == Some(cfg.peer_topology.send_workers@)
            &&& field_in(row, "recv_cpus"@) == Some(cfg.peer_topology.recv_cpus@)
            &&& field_in(row, "send_cpus"@) == Some(cfg.peer_topology.send_cpus@)
            &&& field_in(row, "conns"@) == Some(decimal(cfg.connections as nat))
            &&& field_in(row, "logical_streams"@) == Some(decimal((cfg.connections - if cfg.bond_mode == BondMode::Unbonded {
                0
            } else if cfg.bond_pairs <= cfg.connections / 2 {
                cfg.bond_pairs as int
            } else {
                cfg.connections as int / 2
            }) as nat))
            &&& field_in(row, "source_streams"@) == Some(decimal(m.source_streams as nat))
            &&& field_in(row, "connect_cc"@) == Some(decimal(cfg.connect_concurrency as nat))
            &&& field_in(row, "cc_peak"@) == Some(decimal(m.cc_peak as nat))
            &&& field_in(row, "bond"@) == Some(match cfg.bond_mode {
                BondMode::Unbonded => "none"@,
                BondMode::Broadcast => "broadcast:"@ + decimal(cfg.bond_pairs as nat),
                BondMode::Backup => "backup:"@ + decimal(cfg.bond_pairs as nat),
            })
            &&& field_in(row, "source_bps"@) == Some(decimal(cfg.source_bitrate_bps as nat))
            &&& field_in(row, "srt_bw_mode"@) == Some(match cfg.bandwidth {
                BandwidthPolicy::ProtocolDefault => "protocol-default"@,
                BandwidthPolicy::LegacySourceFixed => "legacy-source-fixed"@,
                BandwidthPolicy::Fixed(bps) => "fixed:"@ + decimal(bps as nat),
                BandwidthPolicy::InputRelative { overhead_percent } => "input-relative:"@ + decimal(overhead_percent as nat),
            })
            &&& field_in(row, "srt_maxbw_bps"@) == Some(match cfg.bandwidth {
                BandwidthPolicy::LegacySourceFixed => decimal((if cfg.source_bitrate_bps >= 8 { cfg.source_bitrate_bps - cfg.source_bitrate_bps % 8 } else { 8 }) as nat),
                BandwidthPolicy::Fixed(bps) => decimal((if bps >= 8 { bps - bps % 8 } else { 8 }) as nat),
                _ => Seq::empty(),
            })
            &&& field_in(row, "srt_inputbw_bps"@) == Some(match cfg.bandwidth {
                BandwidthPolicy::InputRelative { .. } => decimal((if cfg.source_bitrate_bps >= 8 { cfg.source_bitrate_bps - cfg.source_bitrate_bps % 8 } else { 8 }) as nat),
                _ => Seq::empty(),
            })
            &&& field_in(row, "srt_oheadbw_pct"@) == Some(match cfg.bandwidth {
                BandwidthPolicy::InputRelative { overhead_percent } => decimal(overhead_percent as nat),
                _ => decimal(0),
            })
        }),
{
    let values = row_values(cfg, rep, m, model, env);
    rows_are_as_wide_as_the_header(cfg, rep, m, model, env);
    let all = columns_text();
    columns_give_their_values(values, 25);
    assert(all[25] == "workers"@);
    columns_give_their_values(values, 26);
    assert(all[26] == "recv_runtime"@);
    columns_give_their_values(values, 27);
    assert(all[27] == "send_runtime"@);
    columns_give_their_values(values, 28);
    assert(all[28] == "recv_ingress"@);
    columns_give_their_values(values, 29);
    assert(all[29] == "send_ingress"@);
    columns_give_their_values(values, 30);
    assert(all[30] == "recv_workers"@);
    columns_give_their_values(values, 31);
    assert(all[31] == "send_workers"@);
    columns_give_their_values(values, 32);
    assert(all[32] == "recv_cpus"@);
    columns_give_their_values(values, 33);
    assert(all[33] == "send_cpus"@);
    columns_give_their_values(values, 34);
    assert(all[34] == "conns"@);
    columns_give_their_values(values, 35);
    assert(all[35] == "logical_streams"@);
    columns_give_their_values(values, 36);
    assert(all[36] == "source_streams"@);
    columns_give_their_values(values, 37);
    assert(all[37] == "connect_cc"@);
    columns_give_their_values(values, 38);
    assert(all[38] == "cc_peak"@);
    columns_give_their_values(values, 39);
    assert(all[39] == "bond"@);
    columns_give_their_values(values, 40);
    assert(all[40] == "source_bps"@);
    columns_give_their_values(values, 41);
    assert(all[41] == "srt_bw_mode"@);
    columns_give_their_values(values, 42);
    assert(all[42] == "srt_maxbw_bps"@);
    columns_give_their_values(values, 43);
    assert(all[43] == "srt_inputbw_bps"@);
    columns_give_their_values(values, 44);
    assert(all[44] == "srt_oheadbw_pct"@);
}

/// A row says under each of the model's columns what the model expected.
pub proof fn rows_say_what_the_model_expected(
    cfg: BenchConfig,
    rep: usize,
    m: RunMeasurements,
    model: ModelColumns,
    env: RunSurroundings,
)
    ensures
        ({
            let row = values_record(row_values(cfg, rep, m, model, env));
            &&& field_in(row, "model_policy_rev"@) == Some(model.policy_revision@)
            &&& field_in(row, "model_class_pre"@) == Some(model.class@)
            &&& field_in(row, "model_reasons_pre"@) == Some(model.reasons@)
            &&& field_in(row, "model_source_pps_total"@) == Some(model.source_pps_total@)
            &&& field_in(row, "model_packet_pps"@) == Some(model.packet_pps@)
            &&& field_in(row, "model_srt_total_bps"@) == Some(model.srt_total_bps@)
            &&& field_in(row, "model_udp_ip_bps"@) == Some(model.udp_ip_bps@)
            &&& field_in(row, "model_nic_wire_bps"@) == Some(model.nic_wire_bps@)
            &&& field_in(row, "model_retransmission_factor"@) == Some(model.retransmission_factor@)
            &&& field_in(row, "model_bdp_packets"@) == Some(model.bdp_packets@)
            &&& field_in(row, "model_required_window_packets"@) == Some(model.required_window_packets@)
            &&& field_in(row, "model_flow_window_headroom_packets"@) == Some(model.flow_window_headroom_packets@)
            &&& field_in(row, "model_receive_window_headroom_packets"@) == Some(model.receive_window_headroom_packets@)
            &&& field_in(row, "model_recovery_margin_ms"@) == Some(model.recovery_margin_ms@)
            &&& field_in(row, "model_socket_horizon_recv_s"@) == Some(model.socket_horizon_recv_s@)
            &&& field_in(row, "model_socket_horizon_send_s"@) == Some(model.socket_horizon_send_s@)
            &&& field_in(row, "model_host_utilization"@) == Some(model.host_utilization@)
            &&& field_in(row, "model_nic_utilization"@) == Some(model.nic_utilization@)
            &&& field_in(row, "model_admission_waves"@) == Some(model.admission_waves@)
        }),
{
    let values = row_values(cfg, rep, m, model, env);
    rows_are_as_wide_as_the_header(cfg, rep, m, model, env);
    let all = columns_text();
    columns_give_their_values(values, 45);
    assert(all[45] == "model_policy_rev"@);
    columns_give_their_values(values, 46);
    assert(all[46] == "model_class_pre"@);
    columns_give_their_values(values, 47);
    assert(all[47] == "model_reasons_pre"@);
    columns_give_their_values(values, 48);
    assert(all[48] == "model_source_pps_total"@);
    columns_give_their_values(values, 49);
    assert(all[49] == "model_packet_pps"@);
    columns_give_their_values(values, 50);
    assert(all[50] == "model_srt_total_bps"@);
    columns_give_their_values(values, 51);
    assert(all[51] == "model_udp_ip_bps"@);
    columns_give_their_values(values, 52);
    assert(all[52] == "model_nic_wire_bps"@);
    columns_give_their_values(values, 53);
    assert(all[53] == "model_retransmission_factor"@);
    columns_give_their_values(values, 54);
    assert(all[54] == "model_bdp_packets"@);
    columns_give_their_values(values, 55);
    assert(all[55] == "model_required_window_packets"@);
    columns_give_their_values(values, 56);
    assert(all[56] == "model_flow_window_headroom_packets"@);
    columns_give_their_values(values, 57);
    assert(all[57] == "model_receive_window_headroom_packets"@);
    columns_give_their_values(values, 58);
    assert(all[58] == "model_recovery_margin_ms"@);
    columns_give_their_values(values, 59);
    assert(all[59] == "model_socket_horizon_recv_s"@);
    columns_give_their_values(values, 60);
    assert(all[60] == "model_socket_horizon_send_s"@);
    columns_give_their_values(values, 61);
    assert(all[61] == "model_host_utilization"@);
    columns_give_their_values(values, 62);
    assert(all[62] == "model_nic_utilization"@);
    columns_give_their_values(values, 63);
    assert(all[63] == "model_admission_waves"@);
}

/// A row says under each column of its outcome what the run measured.
pub proof fn rows_say_what_the_run_came_to(
    cfg: BenchConfig,
    rep: usize,
    m: RunMeasurements,
    model: ModelColumns,
    env: RunSurroundings,
)
    ensures
        ({
            let row = values_record(row_values(cfg, rep, m, model, env));
            &&& field_in(row, "rep"@) == Some(decimal(rep as nat))
            &&& field_in(row, "attempt"@) == Some(cfg.attempt@)
            &&& field_in(row, "established"@) == Some(decimal(m.established as nat))
            &&& field_in(row, "torn_down"@) == Some(decimal(m.torn_down as nat))
            &&& field_in(row, "pkt_sent"@) == Some(decimal(m.pkt_sent as nat))
            &&& field_in(row, "core_total"@) == Some(decimal(m.core_total as nat))
            &&& field_in(row, "sec_a"@) == Some(decimal(m.sec_a as nat))
            &&& field_in(row, "sec_b"@) == Some(decimal(m.sec_b as nat))
            &&& field_in(row, "rtt_ms"@) == Some(m.rtt_ms@)
            &&& field_in(row, "elapsed_s"@) == Some(m.elapsed_s@)
            &&& field_in(row, "cpu_user_ms"@) == Some(env.cpu_user_ms@)
            &&& field_in(row, "cpu_sys_ms"@) == Some(env.cpu_sys_ms@)
            &&& field_in(row, "peak_rss_kb"@) == Some(decimal(env.peak_rss_kb as nat))
            &&& field_in(row, "secs"@) == Some(env.stream_secs@)
            &&& field_in(row, "udp_rcvbuf_err"@) == Some(decimal(env.udp.rcvbuf_errors as nat))
            &&& field_in(row, "udp_in_err"@) == Some(decimal(env.udp.in_errors as nat))
            &&& field_in(row, "udp_no_ports"@) == Some(decimal(env.udp.no_ports as nat))
        }),
{
    let values = row_values(cfg, rep, m, model, env);
    rows_are_as_wide_as_the_header(cfg, rep, m, model, env);
    let all = columns_text();
    columns_give_their_values(values, 64);
    assert(all[64] == "rep"@);
    columns_give_their_values(values, 65);
    assert(all[65] == "attempt"@);
    columns_give_their_values(values, 66);
    assert(all[66] == "established"@);
    columns_give_their_values(values, 67);
    assert(all[67] == "torn_down"@);
    columns_give_their_values(values, 68);
    assert(all[68] == "pkt_sent"@);
    columns_give_their_values(values, 69);
    assert(all[69] == "core_total"@);
    columns_give_their_values(values, 70);
    assert(all[70] == "sec_a"@);
    columns_give_their_values(values, 71);
    assert(all[71] == "sec_b"@);
    columns_give_their_values(values, 72);
    assert(all[72] == "rtt_ms"@);
    columns_give_their_values(values, 73);
    assert(all[73] == "elapsed_s"@);
    columns_give_their_values(values, 74);
    assert(all[74] == "cpu_user_ms"@);
    columns_give_their_values(values, 75);
    assert(all[75] == "cpu_sys_ms"@);
    columns_give_their_values(values, 76);
    assert(all[76] == "peak_rss_kb"@);
    columns_give_their_values(values, 77);
    assert(all[77] == "secs"@);
    columns_give_their_values(values, 78);
    assert(all[78] == "udp_rcvbuf_err"@);
    columns_give_their_values(values, 79);
    assert(all[79] == "udp_in_err"@);
    columns_give_their_values(values, 80);
    assert(all[80] == "udp_no_ports"@);
}

/// A row says under each column of its source and queues what these did.
pub proof fn rows_say_what_source_and_queues_did(
    cfg: BenchConfig,
    rep: usize,
    m: RunMeasurements,
    model: ModelColumns,
    env: RunSurroundings,
)
    ensures
        ({
            let row = values_record(row_values(cfg, rep, m, model, env));
            &&& field_in(row, "src_generated"@) == Some(decimal(m.source.generated as nat))
            &&& field_in(row, "src_accepted"@) == Some(decimal(m.source.accepted as nat))
            &&& field_in(row, "src_refusal_polls"@) == Some(decimal(m.source.refusal_polls as nat))
            &&& field_in(row, "src_blocked_streaks"@) == Some(decimal(m.source.blocked_streaks as nat))
            &&& field_in(row, "source_backlog_ms"@) == Some(decimal(cfg.source_backlog_ms as nat))
            &&& field_in(row, "src_backlog_cap"@) == Some(decimal(env.backlog_capacity as nat))
            &&& field_in(row, "src_backlog_hwm"@) == Some(decimal(m.source.backlog_hwm as nat))
            &&& field_in(row, "src_overflow"@) == Some(decimal(m.source.overflow as nat))
            &&& field_in(row, "datapath_q_horizon_ms"@) == Some(decimal(cfg.datapath_queue_horizon_ms as nat))
            &&& field_in(row, "datapath_q_count"@) == Some(decimal(m.datapath_queue.queues as nat))
            &&& field_in(row, "datapath_q_cap_per_queue"@) == Some(decimal(m.datapath_queue.capacity_per_queue as nat))
            &&& field_in(row, "datapath_q_total_cap"@) == Some(decimal(m.datapath_queue.total_capacity as nat))
            &&& field_in(row, "datapath_q_peak_depth_max"@) == Some(decimal(m.datapath_queue.peak_depth_max as nat))
            &&& field_in(row, "datapath_q_peak_depth_sum"@) == Some(decimal(m.datapath_queue.peak_depth_sum as nat))
            &&& field_in(row, "datapath_q_full"@) == Some(decimal(m.datapath_queue.full_events as nat))
            &&& field_in(row, "datapath_q_dropped"@) == Some(decimal(m.datapath_queue.dropped_or_rejected as nat))
            &&& field_in(row, "datapath_q_disconnected"@) == Some(decimal(m.datapath_queue.disconnected as nat))
            &&& field_in(row, "recv_packets"@) == Some(decimal(m.recv_scheduling.packets as nat))
            &&& field_in(row, "recv_syscalls"@) == Some(decimal(m.recv_scheduling.syscalls as nat))
            &&& field_in(row, "datagrams_per_syscall"@) == Some(if m.recv_scheduling.syscalls == 0 {
                "0"@
            } else {
                m.recv_scheduling.datagrams_per_syscall@
            })
            &&& field_in(row, "timer_late_p50_bucket_us"@) == Some(decimal(m.recv_scheduling.late_p50_bucket_us as nat))
            &&& field_in(row, "timer_late_p95_bucket_us"@) == Some(decimal(m.recv_scheduling.late_p95_bucket_us as nat))
            &&& field_in(row, "timer_late_p99_bucket_us"@) == Some(decimal(m.recv_scheduling.late_p99_bucket_us as nat))
            &&& field_in(row, "timer_late_max_us"@) == Some(decimal(m.recv_scheduling.lateness_max_us as nat))
            &&& field_in(row, "retry_horizon_ms"@) == Some(decimal(cfg.outbound_retry_horizon_ms as nat))
            &&& field_in(row, "retry_count"@) == Some(decimal(m.outbound_retry.queues as nat))
            &&& field_in(row, "retry_cap_per_queue"@) == Some(decimal(m.outbound_retry.capacity as nat))
            &&& field_in(row, "retry_total_cap"@) == Some(decimal(m.outbound_retry.total_capacity as nat))
            &&& field_in(row, "retry_peak_depth_max"@) == Some(decimal(m.outbound_retry.high_water as nat))
            &&& field_in(row, "would_block"@) == Some(decimal(m.outbound_retry.would_block as nat))
            &&& field_in(row, "retry_overflow"@) == Some(decimal(m.outbound_retry.overflow as nat))
            &&& field_in(row, "local_dropped"@) == Some(decimal(m.outbound_retry.local_dropped as nat))
        }),
{
    let values = row_values(cfg, rep, m, model, env);
    rows_are_as_wide_as_the_header(cfg, rep, m, model, env);
    let all = columns_text();
    columns_give_their_values(values, 81);
    assert(all[81] == "src_generated"@);
    columns_give_their_values(values, 82);
    assert(all[82] == "src_accepted"@);
    columns_give_their_values(values, 83);
    assert(all[83] == "src_refusal_polls"@);
    columns_give_their_values(values, 84);
    assert(all[84] == "src_blocked_streaks"@);
    columns_give_their_values(values, 85);
    assert(all[85] == "source_backlog_ms"@);
    columns_give_their_values(values, 86);
    assert(all[86] == "src_backlog_cap"@);
    columns_give_their_values(values, 87);
    assert(all[87] == "src_backlog_hwm"@);
    columns_give_their_values(values, 88);
    assert(all[88] == "src_overflow"@);
    columns_give_their_values(values, 89);
    assert(all[89] == "datapath_q_horizon_ms"@);
    columns_give_their_values(values, 90);
    assert(all[90] == "datapath_q_count"@);
    columns_give_their_values(values, 91);
    assert(all[91] == "datapath_q_cap_per_queue"@);
    columns_give_their_values(values, 92);
    assert(all[92] == "datapath_q_total_cap"@);
    columns_give_their_values(values, 93);
    assert(all[93] == "datapath_q_peak_depth_max"@);
    columns_give_their_values(values, 94);
    assert(all[94] == "datapath_q_peak_depth_sum"@);
    columns_give_their_values(values, 95);
    assert(all[95] == "datapath_q_full"@);
    columns_give_their_values(values, 96);
    assert(all[96] == "datapath_q_dropped"@);
    columns_give_their_values(values, 97);
    assert(all[97] == "datapath_q_disconnected"@);
    columns_give_their_values(values, 98);
    assert(all[98] == "recv_packets"@);
    columns_give_their_values(values, 99);
    assert(all[99] == "recv_syscalls"@);
    columns_give_their_values(values, 100);
    assert(all[100] == "datagrams_per_syscall"@);
    columns_give_their_values(values, 101);
    assert(all[101] == "timer_late_p50_bucket_us"@);
    columns_give_their_values(values, 102);
    assert(all[102] == "timer_late_p95_bucket_us"@);
    columns_give_their_values(values, 103);
    assert(all[103] == "timer_late_p99_bucket_us"@);
    columns_give_their_values(values, 104);
    assert(all[104] == "timer_late_max_us"@);
    columns_give_their_values(values, 105);
    assert(all[105] == "retry_horizon_ms"@);
    columns_give_their_values(values, 106);
    assert(all[106] == "retry_count"@);
    columns_give_their_values(values, 107);
    assert(all[107] == "retry_cap_per_queue"@);
    columns_give_their_values(values, 108);
    assert(all[108] == "retry_total_cap"@);
    columns_give_their_values(values, 109);
    assert(all[109] == "retry_peak_depth_max"@);
    columns_give_their_values(values, 110);
    assert(all[110] == "would_block"@);
    columns_give_their_values(values, 111);
    assert(all[111] == "retry_overflow"@);
    columns_give_their_values(values, 112);
    assert(all[112] == "local_dropped"@);
}

} // verus!
