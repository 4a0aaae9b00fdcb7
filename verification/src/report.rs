use vstd::prelude::*;

verus! {

// Fixed HTML fragments of the benchmark report page that presents
// generation timings. The text is constant; these functions only hand it
// out as owned strings, so they carry no contract beyond returning it.

/// Returns the report page's stylesheet block.
pub fn generate_styles() -> String {
    let s =
r#"    <style>
        :root {
            --primary: #6366f1;
            --primary-dark: #4f46e5;
            --success: #10b981;
            --warning: #f59e0b;
            --danger: #ef4444;
            --info: #3b82f6;
            --gray-50: #f9fafb;
            --gray-100: #f3f4f6;
            --gray-200: #e5e7eb;
            --gray-300: #d1d5db;
            --gray-700: #374151;
            --gray-800: #1f2937;
            --gray-900: #111827;
        }
        
        * { margin: 0; padding: 0; box-sizing: border-box; }
        
        body {
            font-family: 'Inter', -apple-system, BlinkMacSystemFont, 'Segoe UI', sans-serif;
            background: var(--gray-50);
            color: var(--gray-900);
            line-height: 1.6;
        }
        
        .dashboard {
            min-height: 100vh;
        }
        
        .topbar {
            background: linear-gradient(135deg, var(--primary) 0%, var(--primary-dark) 100%);
            color: white;
            padding: 1.5rem 2rem;
            box-shadow: 0 4px 6px rgba(0, 0, 0, 0.1);
        }
        
        .topbar-content {
            max-width: 1600px;
            margin: 0 auto;
            display: flex;
            justify-content: space-between;
            align-items: center;
        }
        
        .topbar h1 {
            font-size: 1.75rem;
            font-weight: 700;
            display: flex;
            align-items: center;
            gap: 0.75rem;
        }
        
        .topbar-meta {
            text-align: right;
            opacity: 0.95;
            font-size: 0.875rem;
        }
        
        .metrics-banner {
            background: white;
            border-bottom: 1px solid var(--gray-200);
            padding: 2rem;
        }
        
        .metrics-grid {
            max-width: 1600px;
            margin: 0 auto;
            display: grid;
            grid-template-columns: repeat(auto-fit, minmax(200px, 1fr));
            gap: 2rem;
        }
        
        .metric-card {
            text-align: center;
        }
        
        .metric-value {
            font-size: 2.5rem;
            font-weight: 700;
            color: var(--primary);
            margin-bottom: 0.25rem;
        }
        
        .metric-value.success { color: var(--success); }
        .metric-value.warning { color: var(--warning); }
        
        .metric-label {
            font-size: 0.875rem;
            color: var(--gray-700);
            text-transform: uppercase;
            letter-spacing: 0.05em;
            font-weight: 600;
        }
        
        .metric-subtext {
            font-size: 0.75rem;
            color: var(--gray-700);
            margin-top: 0.25rem;
        }
        
        .container {
            max-width: 1600px;
            margin: 0 auto;
            padding: 2rem;
        }
        
        .section {
            background: white;
            border-radius: 12px;
            padding: 2rem;
            margin-bottom: 2rem;
            box-shadow: 0 1px 3px rgba(0, 0, 0, 0.1);
        }
        
        .section-header {
            display: flex;
            justify-content: space-between;
            align-items: center;
            margin-bottom: 1.5rem;
            padding-bottom: 1rem;
            border-bottom: 2px solid var(--gray-200);
        }
        
        .section-title {
            font-size: 1.5rem;
            font-weight: 700;
            color: var(--gray-900);
            display: flex;
            align-items: center;
            gap: 0.75rem;
        }
        
        .badge {
            display: inline-block;
            padding: 0.375rem 0.75rem;
            border-radius: 6px;
            font-size: 0.75rem;
            font-weight: 600;
            text-transform: uppercase;
            letter-spacing: 0.05em;
        }
        
        .badge-success { background: #10b98115; color: var(--success); }
        .badge-warning { background: #f59e0b15; color: var(--warning); }
        .badge-info { background: #3b82f615; color: var(--info); }
        .badge-neutral { background: var(--gray-100); color: var(--gray-700); }
        
        .chart-grid {
            display: grid;
            grid-template-columns: repeat(auto-fit, minmax(500px, 1fr));
            gap: 2rem;
            margin: 2rem 0;
        }
        
        .chart-card {
            background: white;
            border-radius: 12px;
            padding: 1.5rem;
            box-shadow: 0 1px 3px rgba(0, 0, 0, 0.1);
            border: 1px solid var(--gray-200);
        }
        
        .chart-card.full-width {
            grid-column: 1 / -1;
        }
        
        .chart-title {
            font-size: 1.125rem;
            font-weight: 600;
            color: var(--gray-900);
            margin-bottom: 1rem;
        }
        
        .chart-wrapper {
            position: relative;
            height: 350px;
        }
        
        .chart-wrapper.tall { height: 450px; }
        .chart-wrapper.short { height: 250px; }
        
        .data-table {
            width: 100%;
            border-collapse: separate;
            border-spacing: 0;
            margin: 1rem 0;
            font-size: 0.875rem;
        }
        
        .data-table thead {
            background: var(--gray-50);
        }
        
        .data-table th {
            padding: 0.75rem 1rem;
            text-align: left;
            font-weight: 600;
            color: var(--gray-700);
            text-transform: uppercase;
            font-size: 0.75rem;
            letter-spacing: 0.05em;
            border-bottom: 2px solid var(--gray-200);
        }
        
        .data-table td {
            padding: 0.875rem 1rem;
            border-bottom: 1px solid var(--gray-200);
        }
        
        .data-table tbody tr:hover {
            background: var(--gray-50);
        }
        
        .data-table tbody tr:last-child td {
            border-bottom: none;
        }
        
        .highlight-row {
            background: #10b98108 !important;
            font-weight: 600;
        }
        
        .highlight-row td:first-child {
            border-left: 3px solid var(--success);
        }
        
        .mono {
            font-family: 'Monaco', 'Courier New', monospace;
            font-size: 0.875em;
        }
        
        .stat-grid {
            display: grid;
            grid-template-columns: repeat(auto-fit, minmax(200px, 1fr));
            gap: 1.5rem;
            margin: 1.5rem 0;
        }
        
        .stat-item {
            padding: 1rem;
            border-radius: 8px;
            background: var(--gray-50);
            border: 1px solid var(--gray-200);
        }
        
        .stat-item-label {
            font-size: 0.75rem;
            color: var(--gray-700);
            text-transform: uppercase;
            letter-spacing: 0.05em;
            margin-bottom: 0.5rem;
        }
        
        .stat-item-value {
            font-size: 1.5rem;
            font-weight: 700;
            color: var(--gray-900);
        }
        
        .info-alert {
            padding: 1rem 1.25rem;
            border-radius: 8px;
            background: #3b82f610;
            border-left: 4px solid var(--info);
            margin: 1.5rem 0;
            font-size: 0.875rem;
        }
        
        .info-alert strong {
            color: var(--info);
        }
        
        footer {
            background: var(--gray-900);
            color: white;
            padding: 2rem;
            text-align: center;
            margin-top: 3rem;
        }
        
        footer p {
            margin: 0.5rem 0;
            opacity: 0.9;
        }
        
        @media (max-width: 768px) {
            .topbar-content { flex-direction: column; gap: 1rem; text-align: center; }
            .chart-grid { grid-template-columns: 1fr; }
            .chart-wrapper { height: 300px; }
        }
    </style>
"#;
    s.to_owned()
}

/// Returns the report page's footer block.
pub fn generate_footer() -> String {
    let s =
r#"    <footer>
        <p><strong>Rerecast</strong> - Rust port of Recast Navigation</p>
        <p>Tile-Based Parallel Navmesh Generation ‚Ä¢ 100% Rust ü¶Ä</p>
        <p style="margin-top: 1rem; opacity: 0.7; font-size: 0.875rem;">
            All data measured from Criterion benchmarks ‚Ä¢ No estimates or extrapolations
        </p>
    </footer>
</div>
"#;
    s.to_owned()
}

} // verus!
