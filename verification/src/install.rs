use vstd::prelude::*;

verus! {

/// The service unit the installer writes: start the agent at boot and
/// restart it whenever it stops.
pub fn systemd_unit() -> (r: &'static str)
    ensures
        r@
            == "[Unit]\nDescription=Lox Line-in Bridge\nAfter=network-online.target\n\n[Service]\nType=simple\nExecStart=/usr/local/bin/lox-linein-bridge run\nRestart=always\nRestartSec=2\n\n[Install]\nWantedBy=multi-user.target\n"@,
{
    "[Unit]\nDescription=Lox Line-in Bridge\nAfter=network-online.target\n\n[Service]\nType=simple\nExecStart=/usr/local/bin/lox-linein-bridge run\nRestart=always\nRestartSec=2\n\n[Install]\nWantedBy=multi-user.target\n"
}

} // verus!
