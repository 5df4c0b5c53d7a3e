//! The optional feature switches chosen at startup.

use vstd::prelude::*;

verus! {

/// Which optional capabilities are switched on.
#[derive(Clone, Copy, Debug, PartialEq, Eq, Structural)]
pub struct AdvancedFeatures {
    pub firewall_enabled: bool,
    pub metrics_explorer_enabled: bool,
    pub fuzzy_search_enabled: bool,
    pub deep_packet_inspection: bool,
    pub historical_analysis: bool,
}

/// The names of the switched-on capabilities, one per flag, in the fixed
/// order firewall, metrics explorer, fuzzy search, deep packet
/// inspection, historical analysis.
pub open spec fn spec_feature_names(f: AdvancedFeatures) -> Seq<Seq<char>> {
    (if f.firewall_enabled {
        seq!["Firewall"@]
    } else {
        Seq::empty()
    }) + (if f.metrics_explorer_enabled {
        seq!["Metrics Explorer"@]
    } else {
        Seq::empty()
    }) + (if f.fuzzy_search_enabled {
        seq!["Fuzzy Search"@]
    } else {
        Seq::empty()
    }) + (if f.deep_packet_inspection {
        seq!["Deep Packet Inspection"@]
    } else {
        Seq::empty()
    }) + (if f.historical_analysis {
        seq!["Historical Analysis"@]
    } else {
        Seq::empty()
    })
}

impl AdvancedFeatures {
    /// Everything off.
    pub fn new() -> (r: AdvancedFeatures)
        ensures
            r == (AdvancedFeatures {
                firewall_enabled: false,
                metrics_explorer_enabled: false,
                fuzzy_search_enabled: false,
                deep_packet_inspection: false,
                historical_analysis: false,
            }),
    {
        AdvancedFeatures {
            firewall_enabled: false,
            metrics_explorer_enabled: false,
            fuzzy_search_enabled: false,
            deep_packet_inspection: false,
            historical_analysis: false,
        }
    }

    /// The switches the command line implies: the all-switch turns on
    /// everything, the metrics switch also keeps history, and deep packet
    /// inspection comes only with the all-switch.
    pub fn from_cli_args(
        enable_firewall: bool,
        enable_metrics: bool,
        enable_search: bool,
        enable_all: bool,
    ) -> (r: AdvancedFeatures)
        ensures
            r == (AdvancedFeatures {
                firewall_enabled: enable_firewall || enable_all,
                metrics_explorer_enabled: enable_metrics || enable_all,
                fuzzy_search_enabled: enable_search || enable_all,
                deep_packet_inspection: enable_all,
                historical_analysis: enable_metrics || enable_all,
            }),
    {
        AdvancedFeatures {
            firewall_enabled: enable_firewall || enable_all,
            metrics_explorer_enabled: enable_metrics || enable_all,
            fuzzy_search_enabled: enable_search || enable_all,
            deep_packet_inspection: enable_all,
            historical_analysis: enable_metrics || enable_all,
        }
    }

    pub fn enable_firewall(&mut self)
        ensures
            *final(self) == (AdvancedFeatures { firewall_enabled: true, ..*old(self) }),
    {
        self.firewall_enabled = true;
    }

    /// Metrics exploration brings historical analysis with it.
    pub fn enable_metrics(&mut self)
        ensures
            *final(self) == (AdvancedFeatures {
                metrics_explorer_enabled: true,
                historical_analysis: true,
                ..*old(self)
            }),
    {
        self.metrics_explorer_enabled = true;
        self.historical_analysis = true;
    }

    pub fn enable_search(&mut self)
        ensures
            *final(self) == (AdvancedFeatures { fuzzy_search_enabled: true, ..*old(self) }),
    {
        self.fuzzy_search_enabled = true;
    }

    pub fn disable_firewall(&mut self)
        ensures
            *final(self) == (AdvancedFeatures { firewall_enabled: false, ..*old(self) }),
    {
        self.firewall_enabled = false;
    }

    /// Dropping metrics exploration drops historical analysis with it.
    pub fn disable_metrics(&mut self)
        ensures
            *final(self) == (AdvancedFeatures {
                metrics_explorer_enabled: false,
                historical_analysis: false,
                ..*old(self)
            }),
    {
        self.metrics_explorer_enabled = false;
        self.historical_analysis = false;
    }

    pub fn disable_search(&mut self)
        ensures
            *final(self) == (AdvancedFeatures { fuzzy_search_enabled: false, ..*old(self) }),
    {
        self.fuzzy_search_enabled = false;
    }

    /// Whether any switch is on.
    pub fn has_any_advanced_features(&self) -> (r: bool)
        ensures
            r == (self.firewall_enabled || self.metrics_explorer_enabled
                || self.fuzzy_search_enabled || self.deep_packet_inspection
                || self.historical_analysis),
    {
        self.firewall_enabled || self.metrics_explorer_enabled || self.fuzzy_search_enabled
            || self.deep_packet_inspection || self.historical_analysis
    }

    /// The names of the switches that are on, in a fixed order.
    pub fn get_enabled_features(&self) -> (r: Vec<String>)
        ensures
            r@.map_values(|s: String| s@) == spec_feature_names(*self),
    {
        let mut features: Vec<String> = Vec::new();
        if self.firewall_enabled {
            features.push("Firewall".to_owned());
        }
        if self.metrics_explorer_enabled {
            features.push("Metrics Explorer".to_owned());
        }
        if self.fuzzy_search_enabled {
            features.push("Fuzzy Search".to_owned());
        }
        if self.deep_packet_inspection {
            features.push("Deep Packet Inspection".to_owned());
        }
        if self.historical_analysis {
            features.push("Historical Analysis".to_owned());
        }
        proof {
            assert(features@.map_values(|s: String| s@) =~= spec_feature_names(*self));
        }
        features
    }

    /// A rough memory estimate in kibibytes for the switched-on
    /// capabilities.
    pub fn get_memory_usage_estimate(&self) -> (r: usize)
        ensures
            r == (if self.firewall_enabled {
                512int
            } else {
                0int
            }) + (if self.metrics_explorer_enabled {
                1024int
            } else {
                0int
            }) + (if self.fuzzy_search_enabled {
                256int
            } else {
                0int
            }) + (if self.deep_packet_inspection {
                2048int
            } else {
                0int
            }) + (if self.historical_analysis {
                1536int
            } else {
                0int
            }),
    {
        let mut memory_kb: usize = 0;
        if self.firewall_enabled {
            memory_kb = memory_kb + 512;
        }
        if self.metrics_explorer_enabled {
            memory_kb = memory_kb + 1024;
        }
        if self.fuzzy_search_enabled {
            memory_kb = memory_kb + 256;
        }
        if self.deep_packet_inspection {
            memory_kb = memory_kb + 2048;
        }
        if self.historical_analysis {
            memory_kb = memory_kb + 1536;
        }
        memory_kb
    }
}

} // verus!
